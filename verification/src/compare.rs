//! Multi-level comparator: compares two collation keys level by level
//! (primary, secondary, case, tertiary, quaternary) under a configuration,
//! and exposes the string comparison built from normalization, key
//! generation and key comparison.
//!
//! The proof functions at the end state the ordering laws: the relation is
//! a strict weak ordering under any fixed configuration, and raising the
//! strength never hides a distinction.

use vstd::prelude::*;

use crate::config::CaseLevel;
use crate::config::Config;
use crate::config::Rank;
use crate::config::Strength;
use crate::generate::digit_run_len;
use crate::generate::gen_from;
use crate::generate::generate;
use crate::generate::is_digit;
use crate::generate::key_spec;
use crate::generate::num_run_elems;
use crate::generate::run_digit;
use crate::generate::run_marker;
use crate::generate::strip_zeros;
use crate::normalize::decomp_spec;
use crate::normalize::decompose_spec;
use crate::normalize::is_ordered;
use crate::normalize::lemma_base_or_mark_plain;
use crate::normalize::lemma_decompose_plain_id;
use crate::normalize::lemma_reorder_ordered_id;
use crate::normalize::lemma_normalize_plain_id;
use crate::normalize::normalize;
use crate::normalize::normalize_spec;
use crate::normalize::plain;
use crate::table::WeightEntry;
use crate::table::WeightTable;
use crate::table::elems_of;
use vstd::string::StrSliceExecFns;

verus! {

/// The weight an element contributes at a comparison level.  Level 2 is
/// the dedicated case level: elements with a primary weight contribute
/// their case flag there, and primary-ignorable elements nothing.
pub open spec fn weight_at(e: WeightEntry, level: int) -> u64 {
    if level == 0 {
        e.primary
    } else if level == 1 {
        e.secondary
    } else if level == 2 {
        if e.primary == 0 {
            0
        } else if e.upper {
            2
        } else {
            1
        }
    } else if level == 3 {
        e.tertiary
    } else {
        e.quaternary
    }
}

/// The sequence of weights a key contributes at one level, with the
/// elements that are ignorable at that level left out.
pub open spec fn level_seq(k: Seq<WeightEntry>, level: int) -> Seq<u64>
    decreases k.len(),
{
    if k.len() == 0 {
        Seq::empty()
    } else {
        let rest = level_seq(k.drop_last(), level);
        if weight_at(k.last(), level) != 0 {
            rest.push(weight_at(k.last(), level))
        } else {
            rest
        }
    }
}

/// Lexicographic comparison of two weight sequences; running out of
/// weights counts as a sentinel lower than any real weight, so a strict
/// prefix orders first (the prefix rule).
pub open spec fn cmp_lex(a: Seq<u64>, b: Seq<u64>) -> Rank
    decreases a.len(),
{
    if a.len() == 0 && b.len() == 0 {
        Rank::Equal
    } else if a.len() == 0 {
        Rank::Less
    } else if b.len() == 0 {
        Rank::Greater
    } else if a[0] < b[0] {
        Rank::Less
    } else if a[0] > b[0] {
        Rank::Greater
    } else {
        cmp_lex(a.drop_first(), b.drop_first())
    }
}

/// Whether a comparison level takes part under `cfg`: the primary level
/// always; the case level when the case toggle is on and the strength is
/// at least secondary (at primary strength the comparison stops after the
/// primary pass, so the case pass, which sits between the secondary and
/// tertiary passes, never runs); the other levels when the strength
/// reaches them.
pub open spec fn level_on(cfg: Config, l: int) -> bool {
    if l == 0 {
        true
    } else if l == 1 {
        cfg.strength.rank() >= 2
    } else if l == 2 {
        cfg.case_level == CaseLevel::On && cfg.strength.rank() >= 2
    } else if l == 3 {
        cfg.strength.rank() >= 3
    } else if l == 4 {
        cfg.strength.rank() >= 4
    } else {
        false
    }
}

/// Level-by-level comparison from level `l` on: the first participating
/// level whose weight sequences differ decides; keys equal on every
/// participating level compare equal.
pub open spec fn cmp_from(a: Seq<WeightEntry>, b: Seq<WeightEntry>, cfg: Config, l: int) -> Rank
    decreases 5 - l,
    when 0 <= l <= 5
{
    if l >= 5 {
        Rank::Equal
    } else {
        let r = if level_on(cfg, l) {
            cmp_lex(level_seq(a, l), level_seq(b, l))
        } else {
            Rank::Equal
        };
        if r != Rank::Equal {
            r
        } else {
            cmp_from(a, b, cfg, l + 1)
        }
    }
}

/// Comparison of two collation keys under a configuration.
pub open spec fn compare_keys_spec(a: Seq<WeightEntry>, b: Seq<WeightEntry>, cfg: Config) -> Rank {
    cmp_from(a, b, cfg, 0)
}

/// Comparison of two character sequences: normalize, generate the
/// collation keys, then compare them level by level.
pub open spec fn compare_spec(a: Seq<char>, b: Seq<char>, cfg: Config) -> Rank {
    compare_keys_spec(
        key_spec(normalize_spec(a), cfg.numeric),
        key_spec(normalize_spec(b), cfg.numeric),
        cfg,
    )
}

/// Lexicographic comparison returns `Equal` exactly on equal sequences.
proof fn lemma_cmp_lex_equal_iff(a: Seq<u64>, b: Seq<u64>)
    ensures
        (cmp_lex(a, b) == Rank::Equal) <==> a == b,
    decreases a.len(),
{
    if a.len() == 0 && b.len() == 0 {
        assert(a =~= b);
    } else if a.len() > 0 && b.len() > 0 && a[0] == b[0] {
        lemma_cmp_lex_equal_iff(a.drop_first(), b.drop_first());
        if a.drop_first() == b.drop_first() {
            assert forall|i: int| 0 <= i < a.len() implies a[i] == b[i] by {
                if i > 0 {
                    assert(a[i] == a.drop_first()[i - 1]);
                    assert(b[i] == b.drop_first()[i - 1]);
                }
            }
            assert(a =~= b);
        }
        if a == b {
            assert(a.drop_first() =~= b.drop_first());
        }
    }
}

/// Swapping the operands of the lexicographic comparison mirrors the
/// result.
proof fn lemma_cmp_lex_flip(a: Seq<u64>, b: Seq<u64>)
    ensures
        cmp_lex(b, a) == (match cmp_lex(a, b) {
            Rank::Less => Rank::Greater,
            Rank::Equal => Rank::Equal,
            Rank::Greater => Rank::Less,
        }),
    decreases a.len(),
{
    if a.len() > 0 && b.len() > 0 && a[0] == b[0] {
        lemma_cmp_lex_flip(a.drop_first(), b.drop_first());
    }
}

/// The lexicographic order is transitive.
proof fn lemma_cmp_lex_less_trans(a: Seq<u64>, b: Seq<u64>, c: Seq<u64>)
    requires
        cmp_lex(a, b) == Rank::Less,
        cmp_lex(b, c) == Rank::Less,
    ensures
        cmp_lex(a, c) == Rank::Less,
    decreases a.len(),
{
    if a.len() == 0 {
    } else {
        if a[0] == b[0] && b[0] == c[0] {
            lemma_cmp_lex_less_trans(a.drop_first(), b.drop_first(), c.drop_first());
        }
    }
}

/// A level comparison returns `Equal` exactly when the weight sequences
/// of every participating level from `l` on agree.
proof fn lemma_cmp_from_equal_iff(a: Seq<WeightEntry>, b: Seq<WeightEntry>, cfg: Config, l: int)
    requires
        0 <= l <= 5,
    ensures
        (cmp_from(a, b, cfg, l) == Rank::Equal) <==> (forall|m: int|
            l <= m < 5 && level_on(cfg, m) ==> #[trigger] level_seq(a, m) == level_seq(b, m)),
    decreases 5 - l,
{
    if l < 5 {
        lemma_cmp_from_equal_iff(a, b, cfg, l + 1);
        if level_on(cfg, l) {
            lemma_cmp_lex_equal_iff(level_seq(a, l), level_seq(b, l));
        }
    }
}

/// Swapping the operands of a level comparison mirrors the result.
proof fn lemma_cmp_from_flip(a: Seq<WeightEntry>, b: Seq<WeightEntry>, cfg: Config, l: int)
    requires
        0 <= l <= 5,
    ensures
        cmp_from(b, a, cfg, l) == (match cmp_from(a, b, cfg, l) {
            Rank::Less => Rank::Greater,
            Rank::Equal => Rank::Equal,
            Rank::Greater => Rank::Less,
        }),
    decreases 5 - l,
{
    if l < 5 {
        lemma_cmp_from_flip(a, b, cfg, l + 1);
        if level_on(cfg, l) {
            lemma_cmp_lex_flip(level_seq(a, l), level_seq(b, l));
            lemma_cmp_lex_equal_iff(level_seq(a, l), level_seq(b, l));
            lemma_cmp_lex_equal_iff(level_seq(b, l), level_seq(a, l));
        }
    }
}

/// Keys that agree on every participating level compare the same way
/// against any third key.
proof fn lemma_cmp_from_congruence(
    a: Seq<WeightEntry>,
    a2: Seq<WeightEntry>,
    b: Seq<WeightEntry>,
    cfg: Config,
    l: int,
)
    requires
        0 <= l <= 5,
        forall|m: int|
            l <= m < 5 && level_on(cfg, m) ==> #[trigger] level_seq(a, m) == level_seq(a2, m),
    ensures
        cmp_from(a, b, cfg, l) == cmp_from(a2, b, cfg, l),
    decreases 5 - l,
{
    if l < 5 {
        lemma_cmp_from_congruence(a, a2, b, cfg, l + 1);
    }
}

/// "Not greater" is transitive for the level comparison.
proof fn lemma_cmp_from_le_trans(
    a: Seq<WeightEntry>,
    b: Seq<WeightEntry>,
    c: Seq<WeightEntry>,
    cfg: Config,
    l: int,
)
    requires
        0 <= l <= 5,
        cmp_from(a, b, cfg, l) != Rank::Greater,
        cmp_from(b, c, cfg, l) != Rank::Greater,
    ensures
        cmp_from(a, c, cfg, l) != Rank::Greater,
    decreases 5 - l,
{
    if l < 5 {
        if level_on(cfg, l) {
            let ra = cmp_lex(level_seq(a, l), level_seq(b, l));
            let rb = cmp_lex(level_seq(b, l), level_seq(c, l));
            lemma_cmp_lex_equal_iff(level_seq(a, l), level_seq(b, l));
            lemma_cmp_lex_equal_iff(level_seq(b, l), level_seq(c, l));
            if ra == Rank::Equal && rb == Rank::Equal {
                lemma_cmp_from_le_trans(a, b, c, cfg, l + 1);
            } else if ra == Rank::Less && rb == Rank::Less {
                lemma_cmp_lex_less_trans(level_seq(a, l), level_seq(b, l), level_seq(c, l));
            }
        } else {
            lemma_cmp_from_le_trans(a, b, c, cfg, l + 1);
        }
    }
}

/// Equality of the comparison is transitive: keys equal to a common key
/// are equal to each other.  Together with
/// [`lemma_compare_antisymmetric`], this makes the comparison a strict
/// weak ordering under any fixed configuration.
pub proof fn lemma_compare_equal_transitive(a: Seq<char>, b: Seq<char>, c: Seq<char>, cfg: Config)
    requires
        compare_spec(a, b, cfg) == Rank::Equal,
        compare_spec(b, c, cfg) == Rank::Equal,
    ensures
        compare_spec(a, c, cfg) == Rank::Equal,
{
    let ka = key_spec(normalize_spec(a), cfg.numeric);
    let kb = key_spec(normalize_spec(b), cfg.numeric);
    let kc = key_spec(normalize_spec(c), cfg.numeric);
    lemma_cmp_from_equal_iff(ka, kb, cfg, 0);
    lemma_cmp_from_equal_iff(kb, kc, cfg, 0);
    lemma_cmp_from_equal_iff(ka, kc, cfg, 0);
}

/// The comparison is antisymmetric: one string orders below a second
/// exactly when the second orders above the first, and equality is
/// symmetric.  In particular no ordered pair is ever both less and
/// greater.
pub proof fn lemma_compare_antisymmetric(a: Seq<char>, b: Seq<char>, cfg: Config)
    ensures
        (compare_spec(a, b, cfg) == Rank::Less) <==> (compare_spec(b, a, cfg) == Rank::Greater),
        (compare_spec(a, b, cfg) == Rank::Equal) <==> (compare_spec(b, a, cfg) == Rank::Equal),
{
    let ka = key_spec(normalize_spec(a), cfg.numeric);
    let kb = key_spec(normalize_spec(b), cfg.numeric);
    lemma_cmp_from_flip(ka, kb, cfg, 0);
}

/// "Not greater" is transitive for the string comparison; this is the
/// property a sort needs of its ordering relation.
pub proof fn lemma_compare_not_greater_transitive(
    a: Seq<char>,
    b: Seq<char>,
    c: Seq<char>,
    cfg: Config,
)
    requires
        compare_spec(a, b, cfg) != Rank::Greater,
        compare_spec(b, c, cfg) != Rank::Greater,
    ensures
        compare_spec(a, c, cfg) != Rank::Greater,
{
    let ka = key_spec(normalize_spec(a), cfg.numeric);
    let kb = key_spec(normalize_spec(b), cfg.numeric);
    let kc = key_spec(normalize_spec(c), cfg.numeric);
    lemma_cmp_from_le_trans(ka, kb, kc, cfg, 0);
}

/// Strict order is transitive for the string comparison.
pub proof fn lemma_compare_less_transitive(a: Seq<char>, b: Seq<char>, c: Seq<char>, cfg: Config)
    requires
        compare_spec(a, b, cfg) == Rank::Less,
        compare_spec(b, c, cfg) == Rank::Less,
    ensures
        compare_spec(a, c, cfg) == Rank::Less,
{
    let ka = key_spec(normalize_spec(a), cfg.numeric);
    let kb = key_spec(normalize_spec(b), cfg.numeric);
    let kc = key_spec(normalize_spec(c), cfg.numeric);
    lemma_cmp_from_le_trans(ka, kb, kc, cfg, 0);
    if compare_spec(a, c, cfg) == Rank::Equal {
        lemma_cmp_from_equal_iff(ka, kc, cfg, 0);
        lemma_cmp_from_congruence(ka, kc, kb, cfg, 0);
        lemma_cmp_from_flip(kb, kc, cfg, 0);
    }
}

/// A comparison with no participating level from `l` on returns `Equal`.
proof fn lemma_cmp_from_all_off(a: Seq<WeightEntry>, b: Seq<WeightEntry>, cfg: Config, l: int)
    requires
        0 <= l <= 5,
        forall|m: int| l <= m < 5 ==> !level_on(cfg, m),
    ensures
        cmp_from(a, b, cfg, l) == Rank::Equal,
    decreases 5 - l,
{
    if l < 5 {
        lemma_cmp_from_all_off(a, b, cfg, l + 1);
    }
}

/// With the case setting fixed, the levels participating at a lower
/// strength are a prefix of those at a higher one, so a difference
/// established at the lower strength decides identically at the higher.
proof fn lemma_cmp_from_prefix(
    a: Seq<WeightEntry>,
    b: Seq<WeightEntry>,
    low: Config,
    high: Config,
    l: int,
)
    requires
        0 <= l <= 5,
        low.case_level == high.case_level,
        low.strength.rank() <= high.strength.rank(),
        cmp_from(a, b, low, l) != Rank::Equal,
    ensures
        cmp_from(a, b, high, l) == cmp_from(a, b, low, l),
    decreases 5 - l,
{
    if l < 5 {
        if level_on(low, l) {
            assert(level_on(high, l));
            let r = cmp_lex(level_seq(a, l), level_seq(b, l));
            if r == Rank::Equal {
                lemma_cmp_from_prefix(a, b, low, high, l + 1);
            }
        } else if level_on(high, l) {
            // a level the higher strength adds comes after every level the
            // lower strength uses, so nothing is left to distinguish below
            assert(forall|m: int| l <= m < 5 ==> !level_on(low, m));
            lemma_cmp_from_all_off(a, b, low, l);
            assert(false);
        } else {
            lemma_cmp_from_prefix(a, b, low, high, l + 1);
        }
    }
}

/// Monotonic strength: two strings distinguished at one strength stay
/// distinguished, in the same direction, at any higher strength, for
/// fixed case-level and numeric settings.  Raising the precision never
/// hides a distinction, and never flips an established order.
pub proof fn lemma_strength_monotonic(a: Seq<char>, b: Seq<char>, low: Config, high: Config)
    requires
        low.case_level == high.case_level,
        low.numeric == high.numeric,
        low.strength.rank() <= high.strength.rank(),
        compare_spec(a, b, low) != Rank::Equal,
    ensures
        compare_spec(a, b, high) == compare_spec(a, b, low),
        compare_spec(a, b, high) != Rank::Equal,
{
    let ka = key_spec(normalize_spec(a), low.numeric);
    let kb = key_spec(normalize_spec(b), low.numeric);
    lemma_cmp_from_prefix(ka, kb, low, high, 0);
}

/// A key whose elements all carry a weight at a level contributes them
/// all, in order.
proof fn lemma_level_seq_all_on(k: Seq<WeightEntry>, l: int)
    requires
        forall|i: int| 0 <= i < k.len() ==> weight_at(#[trigger] k[i], l) != 0,
    ensures
        level_seq(k, l).len() == k.len(),
        forall|i: int| 0 <= i < k.len() ==> level_seq(k, l)[i] == weight_at(#[trigger] k[i], l),
    decreases k.len(),
{
    if k.len() > 0 {
        lemma_level_seq_all_on(k.drop_last(), l);
        assert(weight_at(k.last(), l) != 0);
        assert(level_seq(k, l) == level_seq(k.drop_last(), l).push(weight_at(k.last(), l)));
        assert forall|i: int| 0 <= i < k.len() implies level_seq(k, l)[i] == weight_at(
            #[trigger] k[i],
            l,
        ) by {
            if i < k.len() - 1 {
                assert(k.drop_last()[i] == k[i]);
                assert(level_seq(k.drop_last(), l)[i] == weight_at(k.drop_last()[i], l));
            }
        }
    }
}

/// Numeric collation ordering, stated for every configuration: with
/// numeric collation on, a digit run with the smaller integer value
/// orders first, and any digit run orders before any Greek letter; with
/// numeric collation off, digits compare one by one, so the longer
/// number can order first.
pub proof fn lemma_numeric_ordering(c: char, on: Config, off: Config)
    requires
        on.numeric,
        !off.numeric,
        0x3B1 <= c as u32 <= 0x3C9,
    ensures
        compare_spec(seq!['\u{03B1}', '2'], seq!['\u{03B1}', '1', '0'], on) == Rank::Less,
        compare_spec(seq!['\u{03B1}', '1', '0'], seq!['\u{03B1}', c], on) == Rank::Less,
        compare_spec(seq!['\u{03B1}', '1', '0'], seq!['\u{03B1}', '2'], off) == Rank::Less,
{
    let alpha = '\u{03B1}';
    let a2 = seq![alpha, '2'];
    let a10 = seq![alpha, '1', '0'];
    let ac = seq![alpha, c];

    // every character involved is undecomposable and has combining class
    // zero, so the three sequences are their own normalizations
    lemma_base_or_mark_plain(alpha);
    lemma_base_or_mark_plain(c);
    assert(plain('0')) by {
        assert(decomp_spec('0') =~= seq!['0']);
    }
    assert(plain('1')) by {
        assert(decomp_spec('1') =~= seq!['1']);
    }
    assert(plain('2')) by {
        assert(decomp_spec('2') =~= seq!['2']);
    }
    lemma_normalize_plain_id(a2);
    lemma_normalize_plain_id(a10);
    lemma_normalize_plain_id(ac);

    let e_alpha = WeightEntry { primary: 256, secondary: 1, tertiary: 1, quaternary: 1, upper: false };
    assert(elems_of(alpha)->Some_0 =~= seq![e_alpha]);

    // the collation key of "alpha two" under numeric collation
    assert(digit_run_len(a2, 2) == 0);
    assert(digit_run_len(a2, 1) == 1);
    let run2 = a2.subrange(1, 2);
    assert(run2 =~= seq!['2']);
    assert(strip_zeros(run2) == run2);
    assert(num_run_elems(run2) =~= seq![run_marker(1), run_digit('2')]);
    assert(gen_from(a2, 2, true) =~= Seq::<WeightEntry>::empty());
    assert(gen_from(a2, 1, true) =~= num_run_elems(run2));
    let k2 = seq![e_alpha, run_marker(1), run_digit('2')];
    assert(gen_from(a2, 0, true) =~= k2);

    // the collation key of "alpha one zero" under numeric collation
    assert(digit_run_len(a10, 3) == 0);
    assert(digit_run_len(a10, 2) == 1);
    assert(digit_run_len(a10, 1) == 2);
    let run10 = a10.subrange(1, 3);
    assert(run10 =~= seq!['1', '0']);
    assert(strip_zeros(run10) == run10);
    assert(Seq::new(1nat, |t: int| run_marker(1)) =~= seq![run_marker(1)]);
    assert(num_run_elems(run10) =~= seq![
        run_marker(2),
        run_marker(1),
        run_digit('1'),
        run_digit('0'),
    ]);
    assert(gen_from(a10, 3, true) =~= Seq::<WeightEntry>::empty());
    assert(gen_from(a10, 1, true) =~= num_run_elems(run10));
    let k10 = seq![e_alpha, run_marker(2), run_marker(1), run_digit('1'), run_digit('0')];
    assert(gen_from(a10, 0, true) =~= k10);

    // the collation key of "alpha letter"
    assert(!is_digit(c));
    assert(elems_of(c) is Some);
    let ec = elems_of(c)->Some_0;
    assert(ec.len() == 1 && ec[0].primary >= 256);
    assert(gen_from(ac, 2, true) =~= Seq::<WeightEntry>::empty());
    assert(gen_from(ac, 1, true) =~= ec);
    let kc = seq![e_alpha, ec[0]];
    assert(gen_from(ac, 0, true) =~= kc);

    // the collation keys without numeric collation: digits come from the
    // table one by one
    let e1 = WeightEntry { primary: 17, secondary: 1, tertiary: 1, quaternary: 1, upper: false };
    let e0 = WeightEntry { primary: 16, secondary: 1, tertiary: 1, quaternary: 1, upper: false };
    let e2 = WeightEntry { primary: 18, secondary: 1, tertiary: 1, quaternary: 1, upper: false };
    assert(elems_of('1')->Some_0 =~= seq![e1]);
    assert(elems_of('0')->Some_0 =~= seq![e0]);
    assert(elems_of('2')->Some_0 =~= seq![e2]);
    assert(gen_from(a10, 3, false) =~= Seq::<WeightEntry>::empty());
    assert(gen_from(a10, 2, false) =~= seq![e0]);
    assert(gen_from(a10, 1, false) =~= seq![e1, e0]);
    let k10f = seq![e_alpha, e1, e0];
    assert(gen_from(a10, 0, false) =~= k10f);
    assert(gen_from(a2, 2, false) =~= Seq::<WeightEntry>::empty());
    assert(gen_from(a2, 1, false) =~= seq![e2]);
    let k2f = seq![e_alpha, e2];
    assert(gen_from(a2, 0, false) =~= k2f);

    // primary weight sequences
    lemma_level_seq_all_on(k2, 0);
    lemma_level_seq_all_on(k10, 0);
    lemma_level_seq_all_on(kc, 0);
    lemma_level_seq_all_on(k10f, 0);
    lemma_level_seq_all_on(k2f, 0);
    let prim2 = seq![256u64, 32, 18];
    let prim10 = seq![256u64, 32, 32, 17, 16];
    let primc = seq![256u64, ec[0].primary];
    let prim10f = seq![256u64, 17, 16];
    let prim2f = seq![256u64, 18];
    assert(level_seq(k2, 0) =~= prim2);
    assert(level_seq(k10, 0) =~= prim10);
    assert(level_seq(kc, 0) =~= primc);
    assert(level_seq(k10f, 0) =~= prim10f);
    assert(level_seq(k2f, 0) =~= prim2f);

    // the primary level decides each comparison
    assert(cmp_lex(prim2, prim10) == Rank::Less) by {
        assert(prim2.drop_first() =~= seq![32u64, 18]);
        assert(prim10.drop_first() =~= seq![32u64, 32, 17, 16]);
        assert(seq![32u64, 18].drop_first() =~= seq![18u64]);
        assert(seq![32u64, 32, 17, 16].drop_first() =~= seq![32u64, 17, 16]);
        assert(cmp_lex(seq![18u64], seq![32u64, 17, 16]) == Rank::Less);
        assert(cmp_lex(seq![32u64, 18], seq![32u64, 32, 17, 16]) == Rank::Less);
    }
    assert(cmp_lex(prim10, primc) == Rank::Less) by {
        assert(prim10.drop_first() =~= seq![32u64, 32, 17, 16]);
        assert(primc.drop_first() =~= seq![ec[0].primary]);
        assert(cmp_lex(seq![32u64, 32, 17, 16], seq![ec[0].primary]) == Rank::Less);
    }
    assert(cmp_lex(prim10f, prim2f) == Rank::Less) by {
        assert(prim10f.drop_first() =~= seq![17u64, 16]);
        assert(prim2f.drop_first() =~= seq![18u64]);
        assert(cmp_lex(seq![17u64, 16], seq![18u64]) == Rank::Less);
    }

    // fold the results back into the full comparisons
    assert(compare_spec(a2, a10, on) == cmp_from(k2, k10, on, 0));
    assert(compare_spec(a10, ac, on) == cmp_from(k10, kc, on, 0));
    assert(compare_spec(a10, a2, off) == cmp_from(k10f, k2f, off, 0));
}

/// Case-level toggle: at secondary strength with the case level on, a
/// lower-case letter and its upper-case form compare unequal; with the
/// case level off at the same strength they compare equal.  The numeric
/// setting plays no part for letters.
pub proof fn lemma_case_level_toggle(on: Config, off: Config)
    requires
        on.strength == Strength::Secondary,
        on.case_level == CaseLevel::On,
        off.strength == Strength::Secondary,
        off.case_level == CaseLevel::Off,
    ensures
        compare_spec(seq!['\u{03B1}'], seq!['\u{0391}'], on) != Rank::Equal,
        compare_spec(seq!['\u{03B1}'], seq!['\u{0391}'], off) == Rank::Equal,
{
    let lo = seq!['\u{03B1}'];
    let up = seq!['\u{0391}'];
    lemma_base_or_mark_plain('\u{03B1}');
    lemma_base_or_mark_plain('\u{0391}');
    lemma_normalize_plain_id(lo);
    lemma_normalize_plain_id(up);

    let e_lo = WeightEntry { primary: 256, secondary: 1, tertiary: 1, quaternary: 1, upper: false };
    let e_up = WeightEntry { primary: 256, secondary: 1, tertiary: 3, quaternary: 1, upper: true };
    assert(elems_of('\u{03B1}')->Some_0 =~= seq![e_lo]);
    assert(elems_of('\u{0391}')->Some_0 =~= seq![e_up]);
    let k_lo = seq![e_lo];
    let k_up = seq![e_up];
    assert(!is_digit('\u{03B1}') && !is_digit('\u{0391}'));
    assert(gen_from(lo, 1, on.numeric) =~= Seq::<WeightEntry>::empty());
    assert(gen_from(up, 1, on.numeric) =~= Seq::<WeightEntry>::empty());
    assert(gen_from(lo, 0, on.numeric) =~= k_lo);
    assert(gen_from(up, 0, on.numeric) =~= k_up);
    assert(gen_from(lo, 1, off.numeric) =~= Seq::<WeightEntry>::empty());
    assert(gen_from(up, 1, off.numeric) =~= Seq::<WeightEntry>::empty());
    assert(gen_from(lo, 0, off.numeric) =~= k_lo);
    assert(gen_from(up, 0, off.numeric) =~= k_up);

    lemma_level_seq_all_on(k_lo, 0);
    lemma_level_seq_all_on(k_up, 0);
    lemma_level_seq_all_on(k_lo, 1);
    lemma_level_seq_all_on(k_up, 1);
    lemma_level_seq_all_on(k_lo, 2);
    lemma_level_seq_all_on(k_up, 2);
    assert(level_seq(k_lo, 0) =~= seq![256u64]);
    assert(level_seq(k_up, 0) =~= seq![256u64]);
    assert(level_seq(k_lo, 1) =~= seq![1u64]);
    assert(level_seq(k_up, 1) =~= seq![1u64]);
    assert(level_seq(k_lo, 2) =~= seq![1u64]);
    assert(level_seq(k_up, 2) =~= seq![2u64]);

    assert(seq![256u64].drop_first() =~= Seq::<u64>::empty());
    assert(seq![1u64].drop_first() =~= Seq::<u64>::empty());
    assert(cmp_lex(Seq::<u64>::empty(), Seq::<u64>::empty()) == Rank::Equal);
    assert(cmp_lex(seq![256u64], seq![256u64]) == Rank::Equal);
    assert(cmp_lex(seq![1u64], seq![1u64]) == Rank::Equal);
    assert(cmp_lex(seq![1u64], seq![2u64]) == Rank::Less);

    // with the case level on, the dedicated case pass decides
    assert(cmp_from(k_lo, k_up, on, 2) == Rank::Less);
    assert(cmp_from(k_lo, k_up, on, 1) == Rank::Less);
    assert(cmp_from(k_lo, k_up, on, 0) == Rank::Less);

    // with the case level off, every participating level agrees
    lemma_cmp_from_equal_iff(k_lo, k_up, off, 0);
    assert forall|m: int| 0 <= m < 5 && level_on(off, m) implies #[trigger] level_seq(k_lo, m)
        == level_seq(k_up, m) by {
        assert(m == 0 || m == 1);
    }
}

/// At primary strength only the base letter and its length count,
/// whatever the case toggle says: an accent or a case difference is
/// invisible (the case pass never runs at primary strength), while a
/// different base letter, or a length mark, still decides.
pub proof fn lemma_primary_base_letter_only(prim: Config)
    requires
        prim.strength == Strength::Primary,
    ensures
        compare_spec(seq!['\u{03B1}'], seq!['\u{0391}'], prim) == Rank::Equal,
        compare_spec(seq!['\u{03B1}'], seq!['\u{03AC}'], prim) == Rank::Equal,
        compare_spec(seq!['\u{03B1}'], seq!['\u{0386}'], prim) == Rank::Equal,
        compare_spec(seq!['\u{03B1}'], seq!['\u{03B2}'], prim) == Rank::Less,
        compare_spec(seq!['\u{03B1}'], seq!['\u{03B1}', '\u{0304}'], prim) == Rank::Less,
{
    let lo = seq!['\u{03B1}'];
    let up = seq!['\u{0391}'];
    let lo_acc = seq!['\u{03AC}'];
    let up_acc = seq!['\u{0386}'];
    let beta = seq!['\u{03B2}'];
    lemma_base_or_mark_plain('\u{03B1}');
    lemma_base_or_mark_plain('\u{0391}');
    lemma_base_or_mark_plain('\u{03B2}');
    lemma_normalize_plain_id(lo);
    lemma_normalize_plain_id(up);
    lemma_normalize_plain_id(beta);

    // the accented forms decompose to base letter plus acute accent
    let dec_lo = seq!['\u{03B1}', '\u{0301}'];
    let dec_up = seq!['\u{0391}', '\u{0301}'];
    assert(lo_acc.drop_last() =~= Seq::<char>::empty());
    assert(up_acc.drop_last() =~= Seq::<char>::empty());
    assert(decompose_spec(Seq::<char>::empty()) =~= Seq::<char>::empty());
    assert(decomp_spec('\u{03AC}') =~= dec_lo);
    assert(decomp_spec('\u{0386}') =~= dec_up);
    assert(decompose_spec(lo_acc) =~= dec_lo);
    assert(decompose_spec(up_acc) =~= dec_up);
    assert(is_ordered(dec_lo));
    assert(is_ordered(dec_up));
    lemma_reorder_ordered_id(dec_lo);
    lemma_reorder_ordered_id(dec_up);

    let e_lo = WeightEntry { primary: 256, secondary: 1, tertiary: 1, quaternary: 1, upper: false };
    let e_up = WeightEntry { primary: 256, secondary: 1, tertiary: 3, quaternary: 1, upper: true };
    let e_beta = WeightEntry {
        primary: 257,
        secondary: 1,
        tertiary: 1,
        quaternary: 1,
        upper: false,
    };
    let e_acc = WeightEntry { primary: 0, secondary: 19, tertiary: 1, quaternary: 1, upper: false };
    assert(elems_of('\u{03B1}')->Some_0 =~= seq![e_lo]);
    assert(elems_of('\u{0391}')->Some_0 =~= seq![e_up]);
    assert(elems_of('\u{03B2}')->Some_0 =~= seq![e_beta]);
    assert(elems_of('\u{0301}')->Some_0 =~= seq![e_acc]);

    let n = prim.numeric;
    assert(gen_from(lo, 1, n) =~= Seq::<WeightEntry>::empty());
    assert(gen_from(lo, 0, n) =~= seq![e_lo]);
    assert(gen_from(up, 1, n) =~= Seq::<WeightEntry>::empty());
    assert(gen_from(up, 0, n) =~= seq![e_up]);
    assert(gen_from(beta, 1, n) =~= Seq::<WeightEntry>::empty());
    assert(gen_from(beta, 0, n) =~= seq![e_beta]);
    assert(gen_from(dec_lo, 2, n) =~= Seq::<WeightEntry>::empty());
    assert(gen_from(dec_lo, 1, n) =~= seq![e_acc]);
    assert(gen_from(dec_lo, 0, n) =~= seq![e_lo, e_acc]);
    assert(gen_from(dec_up, 2, n) =~= Seq::<WeightEntry>::empty());
    assert(gen_from(dec_up, 1, n) =~= seq![e_acc]);
    assert(gen_from(dec_up, 0, n) =~= seq![e_up, e_acc]);

    // primary weight sequences: the accent is primary-ignorable
    lemma_level_seq_all_on(seq![e_lo], 0);
    lemma_level_seq_all_on(seq![e_up], 0);
    lemma_level_seq_all_on(seq![e_beta], 0);
    assert(level_seq(seq![e_lo], 0) =~= seq![256u64]);
    assert(level_seq(seq![e_up], 0) =~= seq![256u64]);
    assert(level_seq(seq![e_beta], 0) =~= seq![257u64]);
    assert(seq![e_lo, e_acc].drop_last() =~= seq![e_lo]);
    assert(level_seq(seq![e_lo, e_acc], 0) =~= seq![256u64]);
    assert(seq![e_up, e_acc].drop_last() =~= seq![e_up]);
    assert(level_seq(seq![e_up, e_acc], 0) =~= seq![256u64]);

    // only the primary level participates
    lemma_cmp_from_equal_iff(seq![e_lo], seq![e_up], prim, 0);
    lemma_cmp_from_equal_iff(seq![e_lo], seq![e_lo, e_acc], prim, 0);
    lemma_cmp_from_equal_iff(seq![e_lo], seq![e_up, e_acc], prim, 0);
    assert(cmp_lex(seq![256u64], seq![257u64]) == Rank::Less);
    assert(cmp_from(seq![e_lo], seq![e_beta], prim, 0) == Rank::Less);

    // the length-marked vowel differs at the primary level already: its
    // absorbed macron matches as a contraction and carries a primary weight
    let amac = seq!['\u{03B1}', '\u{0304}'];
    lemma_base_or_mark_plain('\u{0304}');
    lemma_decompose_plain_id(amac);
    assert(is_ordered(amac));
    lemma_reorder_ordered_id(amac);
    let e_len = WeightEntry { primary: 64, secondary: 32, tertiary: 1, quaternary: 1, upper: false };
    assert(gen_from(amac, 2, n) =~= Seq::<WeightEntry>::empty());
    assert(gen_from(amac, 0, n) =~= seq![e_lo, e_len]);
    lemma_level_seq_all_on(seq![e_lo, e_len], 0);
    assert(level_seq(seq![e_lo, e_len], 0) =~= seq![256u64, 64]);
    assert(seq![256u64].drop_first() =~= Seq::<u64>::empty());
    assert(seq![256u64, 64].drop_first() =~= seq![64u64]);
    assert(cmp_lex(Seq::<u64>::empty(), seq![64u64]) == Rank::Less);
    assert(cmp_lex(seq![256u64], seq![256u64, 64]) == Rank::Less);
    assert(cmp_from(seq![e_lo], seq![e_lo, e_len], prim, 0) == Rank::Less);
}

/// Level weights distribute over concatenation of keys.
proof fn lemma_level_seq_concat(x: Seq<WeightEntry>, y: Seq<WeightEntry>, l: int)
    ensures
        level_seq(x + y, l) == level_seq(x, l) + level_seq(y, l),
    decreases y.len(),
{
    if y.len() == 0 {
        assert(x + y =~= x);
        assert(level_seq(x, l) + level_seq(y, l) =~= level_seq(x, l));
    } else {
        lemma_level_seq_concat(x, y.drop_last(), l);
        assert((x + y).drop_last() =~= x + y.drop_last());
        assert((x + y).last() == y.last());
        if weight_at(y.last(), l) != 0 {
            assert(level_seq(x, l) + level_seq(y, l) =~= (level_seq(x, l) + level_seq(
                y.drop_last(),
                l,
            )).push(weight_at(y.last(), l)));
        }
    }
}

/// The space counts only at the quaternary level: a token with a space is
/// equal, through the tertiary level, to the same token without it, and
/// orders after it exactly at quaternary strength.
#[verifier::rlimit(100)]
pub proof fn lemma_quaternary_space(ter: Config, quat: Config)
    requires
        ter.strength.rank() <= 3,
        quat.strength == Strength::Quaternary,
    ensures
        compare_spec(
            seq!['\u{1F03}', '\u{1F05}'],
            seq!['\u{1F03}', ' ', '\u{1F05}'],
            ter,
        ) == Rank::Equal,
        compare_spec(
            seq!['\u{1F03}', ' ', '\u{1F05}'],
            seq!['\u{1F03}', '\u{1F05}'],
            ter,
        ) == Rank::Equal,
        compare_spec(
            seq!['\u{1F03}', '\u{1F05}'],
            seq!['\u{1F03}', ' ', '\u{1F05}'],
            quat,
        ) == Rank::Less,
{
    let t = seq!['\u{1F03}', '\u{1F05}'];
    let s = seq!['\u{1F03}', ' ', '\u{1F05}'];
    let d1 = seq!['\u{03B1}', '\u{0314}', '\u{0300}'];
    let d2 = seq!['\u{03B1}', '\u{0314}', '\u{0301}'];

    // normalization: both breathing-and-accent forms decompose, the marks
    // are already in canonical order, and the space stands for itself
    assert(decomp_spec('\u{1F03}') =~= d1);
    assert(decomp_spec('\u{1F05}') =~= d2);
    assert(decomp_spec(' ') =~= seq![' ']);
    assert(t.drop_last() =~= seq!['\u{1F03}']);
    assert(seq!['\u{1F03}'].drop_last() =~= Seq::<char>::empty());
    assert(decompose_spec(Seq::<char>::empty()) =~= Seq::<char>::empty());
    assert(decompose_spec(seq!['\u{1F03}']) =~= d1);
    let dt = d1 + d2;
    assert(decompose_spec(t) =~= dt);
    assert(s.drop_last() =~= seq!['\u{1F03}', ' ']);
    assert(seq!['\u{1F03}', ' '].drop_last() =~= seq!['\u{1F03}']);
    let ds = d1 + seq![' '] + d2;
    assert(decompose_spec(seq!['\u{1F03}', ' ']) =~= d1 + seq![' ']);
    assert(decompose_spec(s) =~= ds);
    assert(is_ordered(dt));
    assert(is_ordered(ds));
    lemma_reorder_ordered_id(dt);
    lemma_reorder_ordered_id(ds);

    // the collation keys: letters, free-standing marks, and the space
    let e_a = WeightEntry { primary: 256, secondary: 1, tertiary: 1, quaternary: 1, upper: false };
    let e_das = WeightEntry { primary: 0, secondary: 17, tertiary: 1, quaternary: 1, upper: false };
    let e_var = WeightEntry { primary: 0, secondary: 18, tertiary: 1, quaternary: 1, upper: false };
    let e_ox = WeightEntry { primary: 0, secondary: 19, tertiary: 1, quaternary: 1, upper: false };
    let e_sp = WeightEntry { primary: 0, secondary: 0, tertiary: 0, quaternary: 2, upper: false };
    let b1 = seq![e_a, e_das, e_var];
    let b2 = seq![e_a, e_das, e_ox];

    let nt = ter.numeric;
    assert(gen_from(dt, 6, nt) =~= Seq::<WeightEntry>::empty());
    assert(gen_from(dt, 5, nt) =~= seq![e_ox]);
    assert(gen_from(dt, 4, nt) =~= seq![e_das, e_ox]);
    assert(gen_from(dt, 3, nt) =~= b2);
    assert(gen_from(dt, 2, nt) =~= seq![e_var] + b2);
    assert(gen_from(dt, 1, nt) =~= seq![e_das, e_var] + b2);
    assert(gen_from(dt, 0, nt) =~= b1 + b2);
    assert(gen_from(ds, 7, nt) =~= Seq::<WeightEntry>::empty());
    assert(gen_from(ds, 6, nt) =~= seq![e_ox]);
    assert(gen_from(ds, 5, nt) =~= seq![e_das, e_ox]);
    assert(gen_from(ds, 4, nt) =~= b2);
    assert(gen_from(ds, 3, nt) =~= seq![e_sp] + b2);
    assert(gen_from(ds, 2, nt) =~= seq![e_var] + (seq![e_sp] + b2));
    assert(gen_from(ds, 1, nt) =~= seq![e_das, e_var] + (seq![e_sp] + b2));
    assert(gen_from(ds, 0, nt) =~= b1 + (seq![e_sp] + b2));
    let kt = b1 + b2;
    let ks = b1 + (seq![e_sp] + b2);

    // the same keys arise under the quaternary configuration
    let nq = quat.numeric;
    assert(gen_from(dt, 6, nq) =~= Seq::<WeightEntry>::empty());
    assert(gen_from(dt, 5, nq) =~= seq![e_ox]);
    assert(gen_from(dt, 4, nq) =~= seq![e_das, e_ox]);
    assert(gen_from(dt, 3, nq) =~= b2);
    assert(gen_from(dt, 2, nq) =~= seq![e_var] + b2);
    assert(gen_from(dt, 1, nq) =~= seq![e_das, e_var] + b2);
    assert(gen_from(dt, 0, nq) =~= kt);
    assert(gen_from(ds, 7, nq) =~= Seq::<WeightEntry>::empty());
    assert(gen_from(ds, 6, nq) =~= seq![e_ox]);
    assert(gen_from(ds, 5, nq) =~= seq![e_das, e_ox]);
    assert(gen_from(ds, 4, nq) =~= b2);
    assert(gen_from(ds, 3, nq) =~= seq![e_sp] + b2);
    assert(gen_from(ds, 2, nq) =~= seq![e_var] + (seq![e_sp] + b2));
    assert(gen_from(ds, 1, nq) =~= seq![e_das, e_var] + (seq![e_sp] + b2));
    assert(gen_from(ds, 0, nq) =~= ks);

    // the space element is ignorable on every level but the quaternary,
    // so through the tertiary level both keys contribute the same weights
    assert(b1.drop_last() =~= seq![e_a, e_das]);
    assert(seq![e_a, e_das].drop_last() =~= seq![e_a]);
    assert(b2.drop_last() =~= seq![e_a, e_das]);
    assert(seq![e_sp].drop_last() =~= Seq::<WeightEntry>::empty());
    assert forall|l: int| 0 <= l < 5 implies level_seq(ks, l) == level_seq(b1, l) + (level_seq(
        seq![e_sp],
        l,
    ) + level_seq(b2, l)) by {
        lemma_level_seq_concat(b1, seq![e_sp] + b2, l);
        lemma_level_seq_concat(seq![e_sp], b2, l);
    }
    assert forall|l: int| 0 <= l < 5 implies level_seq(kt, l) == level_seq(b1, l) + level_seq(
        b2,
        l,
    ) by {
        lemma_level_seq_concat(b1, b2, l);
    }
    assert forall|l: int| 0 <= l < 4 implies level_seq(kt, l) == level_seq(ks, l) by {
        assert(level_seq(Seq::<WeightEntry>::empty(), l) =~= Seq::<u64>::empty());
        assert(level_seq(seq![e_sp], l) =~= Seq::<u64>::empty());
        assert(level_seq(b1, l) + (Seq::<u64>::empty() + level_seq(b2, l)) =~= level_seq(
            b1,
            l,
        ) + level_seq(b2, l));
    }

    // equal through the tertiary level
    lemma_cmp_from_equal_iff(kt, ks, ter, 0);
    assert forall|m: int| 0 <= m < 5 && level_on(ter, m) implies #[trigger] level_seq(kt, m)
        == level_seq(ks, m) by {
        assert(m < 4);
    }
    lemma_cmp_from_flip(kt, ks, ter, 0);

    // at quaternary strength the space's weight decides
    assert(level_seq(Seq::<WeightEntry>::empty(), 4int) =~= Seq::<u64>::empty());
    assert(level_seq(seq![e_sp], 4) =~= seq![2u64]);
    assert(seq![e_a].drop_last() =~= Seq::<WeightEntry>::empty());
    assert(level_seq(seq![e_a], 4) =~= seq![1u64]);
    assert(level_seq(seq![e_a, e_das], 4) =~= seq![1u64, 1]);
    assert(level_seq(b1, 4) =~= seq![1u64, 1, 1]);
    assert(level_seq(b2, 4) =~= seq![1u64, 1, 1]);
    let q_t = seq![1u64, 1, 1, 1, 1, 1];
    let q_s = seq![1u64, 1, 1, 2, 1, 1, 1];
    assert(level_seq(kt, 4) =~= q_t);
    assert(level_seq(ks, 4) =~= q_s);
    assert(q_t.drop_first() =~= seq![1u64, 1, 1, 1, 1]);
    assert(q_s.drop_first() =~= seq![1u64, 1, 2, 1, 1, 1]);
    assert(seq![1u64, 1, 1, 1, 1].drop_first() =~= seq![1u64, 1, 1, 1]);
    assert(seq![1u64, 1, 2, 1, 1, 1].drop_first() =~= seq![1u64, 2, 1, 1, 1]);
    assert(seq![1u64, 1, 1, 1].drop_first() =~= seq![1u64, 1, 1]);
    assert(seq![1u64, 2, 1, 1, 1].drop_first() =~= seq![2u64, 1, 1, 1]);
    assert(cmp_lex(seq![1u64, 1, 1], seq![2u64, 1, 1, 1]) == Rank::Less);
    assert(cmp_lex(seq![1u64, 1, 1, 1], seq![1u64, 2, 1, 1, 1]) == Rank::Less);
    assert(cmp_lex(seq![1u64, 1, 1, 1, 1], seq![1u64, 1, 2, 1, 1, 1]) == Rank::Less);
    assert(cmp_lex(q_t, q_s) == Rank::Less);
    assert(cmp_from(kt, ks, quat, 4) == Rank::Less);
    assert(cmp_from(kt, ks, quat, 3) == Rank::Less) by {
        lemma_cmp_lex_equal_iff(level_seq(kt, 3), level_seq(ks, 3));
    }
    assert(cmp_from(kt, ks, quat, 2) == Rank::Less) by {
        lemma_cmp_lex_equal_iff(level_seq(kt, 2), level_seq(ks, 2));
    }
    assert(cmp_from(kt, ks, quat, 1) == Rank::Less) by {
        lemma_cmp_lex_equal_iff(level_seq(kt, 1), level_seq(ks, 1));
    }
    assert(cmp_from(kt, ks, quat, 0) == Rank::Less) by {
        lemma_cmp_lex_equal_iff(level_seq(kt, 0), level_seq(ks, 0));
    }
}

/// Executable rank of a strength, matching [`Strength::rank`].
fn strength_rank_x(s: &Strength) -> (r: u64)
    ensures
        r as int == s.rank(),
{
    match s {
        Strength::Primary => 1,
        Strength::Secondary => 2,
        Strength::Tertiary => 3,
        Strength::Quaternary => 4,
    }
}

/// Whether a level takes part under the configuration, matching
/// [`level_on`].
fn level_active(options: &Config, l: usize) -> (r: bool)
    ensures
        r == level_on(*options, l as int),
{
    let rk = strength_rank_x(&options.strength);
    if l == 0 {
        true
    } else if l == 1 {
        rk >= 2
    } else if l == 2 {
        options.case_level == CaseLevel::On && rk >= 2
    } else if l == 3 {
        rk >= 3
    } else if l == 4 {
        rk >= 4
    } else {
        false
    }
}

/// One step of [`level_seq`]: appending an element appends its weight
/// when that weight is not ignorable.
proof fn lemma_level_seq_push(s: Seq<WeightEntry>, e: WeightEntry, l: int)
    ensures
        level_seq(s.push(e), l) == (if weight_at(e, l) != 0 {
            level_seq(s, l).push(weight_at(e, l))
        } else {
            level_seq(s, l)
        }),
{
    assert(s.push(e).drop_last() =~= s);
    assert(s.push(e).last() == e);
}

/// The weights a key contributes at one level, matching [`level_seq`].
fn weights_of(k: &Vec<WeightEntry>, l: usize) -> (r: Vec<u64>)
    requires
        l <= 4,
    ensures
        r@ == level_seq(k@, l as int),
{
    let mut r: Vec<u64> = Vec::new();
    let mut i: usize = 0;
    while i < k.len()
        invariant
            0 <= i <= k@.len(),
            l <= 4,
            r@ == level_seq(k@.take(i as int), l as int),
        decreases k@.len() - i,
    {
        let e = k[i];
        let w: u64 = if l == 0 {
            e.primary
        } else if l == 1 {
            e.secondary
        } else if l == 2 {
            if e.primary == 0 {
                0
            } else if e.upper {
                2
            } else {
                1
            }
        } else if l == 3 {
            e.tertiary
        } else {
            e.quaternary
        };
        proof {
            assert(w == weight_at(k@[i as int], l as int));
            assert(k@.take(i + 1 as int) =~= k@.take(i as int).push(k@[i as int]));
            lemma_level_seq_push(k@.take(i as int), k@[i as int], l as int);
        }
        if w != 0 {
            r.push(w);
        }
        i = i + 1;
    }
    proof {
        assert(k@.take(k@.len() as int) =~= k@);
    }
    r
}

/// Executable lexicographic comparison, matching [`cmp_lex`].
fn cmp_lex_x(x: &Vec<u64>, y: &Vec<u64>) -> (r: Rank)
    ensures
        r == cmp_lex(x@, y@),
{
    let mut i: usize = 0;
    proof {
        assert(x@.skip(0) =~= x@);
        assert(y@.skip(0) =~= y@);
    }
    while i < x.len() && i < y.len()
        invariant
            0 <= i <= x@.len(),
            0 <= i <= y@.len(),
            cmp_lex(x@, y@) == cmp_lex(x@.skip(i as int), y@.skip(i as int)),
        decreases x@.len() - i,
    {
        if x[i] < y[i] {
            return Rank::Less;
        }
        if x[i] > y[i] {
            return Rank::Greater;
        }
        proof {
            assert(x@.skip(i as int).drop_first() =~= x@.skip(i + 1 as int));
            assert(y@.skip(i as int).drop_first() =~= y@.skip(i + 1 as int));
        }
        i = i + 1;
    }
    if x.len() == y.len() {
        Rank::Equal
    } else if x.len() < y.len() {
        Rank::Less
    } else {
        Rank::Greater
    }
}

/// Compares two collation keys level by level under the configuration.
pub fn compare_keys(a: &Vec<WeightEntry>, b: &Vec<WeightEntry>, options: &Config) -> (r: Rank)
    ensures
        r == compare_keys_spec(a@, b@, *options),
{
    let mut l: usize = 0;
    while l < 5
        invariant
            0 <= l <= 5,
            compare_keys_spec(a@, b@, *options) == cmp_from(a@, b@, *options, l as int),
        decreases 5 - l,
    {
        if level_active(options, l) {
            let wa = weights_of(a, l);
            let wb = weights_of(b, l);
            let r = cmp_lex_x(&wa, &wb);
            if !(r == Rank::Equal) {
                return r;
            }
        }
        l = l + 1;
    }
    Rank::Equal
}

/// Compares two character sequences: normalization, key generation, then
/// the level-by-level comparison.
pub fn compare(a: &Vec<char>, b: &Vec<char>, table: &WeightTable, options: &Config) -> (r: Rank)
    ensures
        r == compare_spec(a@, b@, *options),
{
    let na = normalize(a);
    let nb = normalize(b);
    let ka = generate(table, &na, options.numeric);
    let kb = generate(table, &nb, options.numeric);
    compare_keys(&ka, &kb, options)
}

/// The characters of a string slice, in order.
pub fn chars_of(text: &str) -> (r: Vec<char>)
    ensures
        r@ == text@,
{
    let n = text.unicode_len();
    let mut r: Vec<char> = Vec::new();
    let mut i: usize = 0;
    while i < n
        invariant
            0 <= i <= n,
            n == text@.len(),
            r@ == text@.take(i as int),
        decreases n - i,
    {
        let c = text.get_char(i);
        r.push(c);
        proof {
            assert(text@.take(i + 1 as int) =~= text@.take(i as int).push(text@[i as int]));
        }
        i = i + 1;
    }
    proof {
        assert(text@.take(n as int) =~= text@);
    }
    r
}

/// Compares two strings under the configuration, building the bundled
/// weight table for the call.
pub fn compare_strs(a: &str, b: &str, options: &Config) -> (r: Rank)
    ensures
        r == compare_spec(a@, b@, *options),
{
    let table = match WeightTable::try_new() {
        Ok(t) => t,
        Err(_) => WeightTable {  },
    };
    let va = chars_of(a);
    let vb = chars_of(b);
    compare(&va, &vb, &table, options)
}

} // verus!
