//! Collation element generator: walks a normalized character sequence and
//! produces the flat sequence of collation elements (the collation key).
//!
//! Each position is resolved through the weight table's longest-match
//! lookup; code points outside the supported repertoire fall back to a
//! weight derived from their numeric value, so every input gets a total
//! ordering.  With numeric collation on, each maximal run of decimal
//! digits is replaced by one synthetic weight sequence ordered first by
//! the run's integer value and then, at the tertiary level, by the run's
//! original digit length.

use vstd::prelude::*;

use crate::table::NUMERIC_RUN_PRIMARY;
use crate::table::WeightEntry;
use crate::table::WeightTable;
use crate::table::lookup_spec;

verus! {

/// Whether `c` is a decimal digit.
pub open spec fn is_digit(c: char) -> bool {
    0x30 <= c as u32 <= 0x39
}

/// Length of the maximal run of decimal digits starting at `i`.
pub open spec fn digit_run_len(s: Seq<char>, i: int) -> int
    decreases s.len() - i,
    when 0 <= i <= s.len()
{
    if i >= s.len() || !is_digit(s[i]) {
        0
    } else {
        1 + digit_run_len(s, i + 1)
    }
}

/// The maximal digit run is as long as the digits reach and no longer.
pub proof fn lemma_digit_run_len(s: Seq<char>, i: int)
    requires
        0 <= i <= s.len(),
    ensures
        0 <= digit_run_len(s, i) <= s.len() - i,
        forall|k: int| i <= k < i + digit_run_len(s, i) ==> is_digit(#[trigger] s[k]),
        i + digit_run_len(s, i) < s.len() ==> !is_digit(s[i + digit_run_len(s, i)]),
        i < s.len() && is_digit(s[i]) ==> digit_run_len(s, i) >= 1,
    decreases s.len() - i,
{
    if i < s.len() && is_digit(s[i]) {
        lemma_digit_run_len(s, i + 1);
    }
}

/// The digit run is determined by where the digits stop.
pub proof fn lemma_digit_run_len_is(s: Seq<char>, i: int, j: int)
    requires
        0 <= i <= j <= s.len(),
        forall|k: int| i <= k < j ==> is_digit(#[trigger] s[k]),
        j < s.len() ==> !is_digit(s[j]),
    ensures
        digit_run_len(s, i) == j - i,
    decreases j - i,
{
    if i < j {
        lemma_digit_run_len_is(s, i + 1, j);
    }
}

/// The run with its leading zero digits removed.
pub open spec fn strip_zeros(run: Seq<char>) -> Seq<char>
    decreases run.len(),
{
    if run.len() > 0 && run[0] == '0' {
        strip_zeros(run.drop_first())
    } else {
        run
    }
}

/// Stripping removes exactly the leading zeros.
pub proof fn lemma_strip_zeros_is(run: Seq<char>, m: int)
    requires
        0 <= m <= run.len(),
        forall|k: int| 0 <= k < m ==> #[trigger] run[k] == '0',
        m < run.len() ==> run[m] != '0',
    ensures
        strip_zeros(run) == run.skip(m),
    decreases m,
{
    if m == 0 {
        assert(strip_zeros(run) =~= run.skip(0));
    } else {
        lemma_strip_zeros_is(run.drop_first(), m - 1);
        assert(run.drop_first().skip(m - 1) =~= run.skip(m));
    }
}

/// The synthetic element that opens a numeric run; its tertiary weight is
/// the run's original digit length, the tiebreak between runs of equal
/// integer value.
pub open spec fn run_marker(tertiary: u64) -> WeightEntry {
    WeightEntry {
        primary: NUMERIC_RUN_PRIMARY,
        secondary: 1,
        tertiary,
        quaternary: 1,
        upper: false,
    }
}

/// The element of one significant digit inside a numeric run.
pub open spec fn run_digit(c: char) -> WeightEntry {
    WeightEntry {
        primary: (16 + (c as u32 - 0x30)) as u64,
        secondary: 1,
        tertiary: 1,
        quaternary: 1,
        upper: false,
    }
}

/// Collation elements of one maximal digit run under numeric collation:
/// one marker element per significant digit (at least one), followed by
/// the significant digits themselves.  A run with more significant digits
/// therefore carries more markers and wins the primary comparison before
/// any digit is compared, which orders runs by integer value; the first
/// marker's tertiary weight carries the original length as the tiebreak.
pub open spec fn num_run_elems(run: Seq<char>) -> Seq<WeightEntry> {
    let sig = strip_zeros(run);
    let extra: int = if sig.len() == 0 {
        0
    } else {
        sig.len() - 1
    };
    seq![run_marker(run.len() as u64)] + Seq::new(extra as nat, |t: int| run_marker(1))
        + sig.map_values(|d: char| run_digit(d))
}

/// Fallback element for a code point outside the supported repertoire:
/// a single weight derived from the code point's numeric value, above
/// every table weight, so unsupported text still orders totally.
pub open spec fn fallback_entry(c: char) -> WeightEntry {
    WeightEntry {
        primary: (0x200000 + c as u32) as u64,
        secondary: 1,
        tertiary: 1,
        quaternary: 1,
        upper: false,
    }
}

/// The collation key of the suffix of `s` that starts at `i`.
pub open spec fn gen_from(s: Seq<char>, i: int, numeric: bool) -> Seq<WeightEntry>
    decreases s.len() - i,
    when 0 <= i <= s.len()
    via gen_from_dec
{
    if i >= s.len() {
        Seq::empty()
    } else if numeric && is_digit(s[i]) {
        let n = digit_run_len(s, i);
        num_run_elems(s.subrange(i, i + n)) + gen_from(s, i + n, numeric)
    } else {
        match lookup_spec(s, i) {
            Some(hit) => hit.1 + gen_from(s, i + hit.0, numeric),
            None => seq![fallback_entry(s[i])] + gen_from(s, i + 1, numeric),
        }
    }
}

#[via_fn]
proof fn gen_from_dec(s: Seq<char>, i: int, numeric: bool) {
    if 0 <= i && i < s.len() && numeric && is_digit(s[i]) {
        lemma_digit_run_len(s, i);
    }
}

/// The collation key of a whole normalized sequence.
pub open spec fn key_spec(s: Seq<char>, numeric: bool) -> Seq<WeightEntry> {
    gen_from(s, 0, numeric)
}

/// Executable digit test, matching [`is_digit`].
fn is_digit_x(c: char) -> (r: bool)
    ensures
        r == is_digit(c),
{
    let u = c as u32;
    0x30 <= u && u <= 0x39
}

/// Walks a normalized sequence and produces its collation key, resolving
/// each position through the weight table and replacing digit runs by
/// their synthetic numeric weights when `numeric` is on.
#[verifier::rlimit(100)]
pub fn generate(table: &WeightTable, text: &Vec<char>, numeric: bool) -> (r: Vec<WeightEntry>)
    ensures
        r@ == key_spec(text@, numeric),
{
    let s = text;
    let mut out: Vec<WeightEntry> = Vec::new();
    let mut i: usize = 0;
    while i < s.len()
        invariant
            0 <= i <= s@.len(),
            key_spec(s@, numeric) == out@ + gen_from(s@, i as int, numeric),
        decreases s@.len() - i,
    {
        if numeric && is_digit_x(s[i]) {
            let start = i;
            proof {
                lemma_digit_run_len(s@, start as int);
            }
            while i < s.len() && is_digit_x(s[i])
                invariant
                    start <= i <= s@.len(),
                    forall|k: int| start <= k < i ==> is_digit(#[trigger] s@[k]),
                decreases s@.len() - i,
            {
                i = i + 1;
            }
            proof {
                lemma_digit_run_len_is(s@, start as int, i as int);
            }
            let ghost run = s@.subrange(start as int, i as int);
            // find the first significant digit
            let mut z = start;
            while z < i && s[z] == '0'
                invariant
                    start <= z <= i <= s@.len(),
                    forall|k: int| start <= k < z ==> #[trigger] s@[k] == '0',
                decreases i - z,
            {
                z = z + 1;
            }
            proof {
                assert(forall|k: int| 0 <= k < z - start ==> #[trigger] run[k] == '0');
                lemma_strip_zeros_is(run, z - start as int);
                assert(strip_zeros(run) =~= s@.subrange(z as int, i as int));
            }
            let sig_len = i - z;
            let run_len_w: u64 = (i - start) as u64;
            out.push(
                WeightEntry {
                    primary: 32,
                    secondary: 1,
                    tertiary: run_len_w,
                    quaternary: 1,
                    upper: false,
                },
            );
            let extra = if sig_len == 0 {
                0
            } else {
                sig_len - 1
            };
            let ghost mid = out@;
            let mut t: usize = 0;
            while t < extra
                invariant
                    0 <= t <= extra,
                    out@ == mid + Seq::new(t as nat, |x: int| run_marker(1)),
                decreases extra - t,
            {
                out.push(
                    WeightEntry {
                        primary: 32,
                        secondary: 1,
                        tertiary: 1,
                        quaternary: 1,
                        upper: false,
                    },
                );
                proof {
                    assert(Seq::new((t + 1) as nat, |x: int| run_marker(1)) =~= Seq::new(
                        t as nat,
                        |x: int| run_marker(1),
                    ).push(run_marker(1)));
                    assert(out@ =~= mid + Seq::new((t + 1) as nat, |x: int| run_marker(1)));
                }
                t = t + 1;
            }
            let ghost mid2 = out@;
            let ghost sig = strip_zeros(run);
            let mut d = z;
            while d < i
                invariant
                    z <= d <= i <= s@.len(),
                    sig == s@.subrange(z as int, i as int),
                    forall|k: int| z <= k < i ==> is_digit(#[trigger] s@[k]),
                    out@ == mid2 + sig.subrange(0, d - z).map_values(|c: char| run_digit(c)),
                decreases i - d,
            {
                let c = s[d];
                let u = c as u32;
                proof {
                    assert(s@[d as int] == sig[d - z]);
                    assert(is_digit(s@[d as int]));
                }
                out.push(
                    WeightEntry {
                        primary: 16 + ((u - 0x30) as u64),
                        secondary: 1,
                        tertiary: 1,
                        quaternary: 1,
                        upper: false,
                    },
                );
                proof {
                    assert(sig.subrange(0, d + 1 - z).map_values(|c: char| run_digit(c)) =~= sig
                        .subrange(0, d - z).map_values(|c: char| run_digit(c)).push(
                        run_digit(sig[d - z]),
                    ));
                    assert(out@ =~= mid2 + sig.subrange(0, d + 1 - z).map_values(
                        |c: char| run_digit(c),
                    ));
                }
                d = d + 1;
            }
            proof {
                assert(sig.subrange(0, i - z as int) =~= sig);
                let extra_g: int = if sig.len() == 0 {
                    0
                } else {
                    sig.len() - 1
                };
                assert(extra as int == extra_g);
                assert(out@ =~= mid + Seq::new(extra_g as nat, |x: int| run_marker(1))
                    + sig.map_values(|c: char| run_digit(c)));
                assert(mid.last() == run_marker(run.len() as u64));
                assert(mid =~= mid.drop_last().push(run_marker(run.len() as u64)));
                assert(out@ =~= mid.drop_last() + num_run_elems(run));
                assert(gen_from(s@, start as int, numeric) == num_run_elems(run) + gen_from(
                    s@,
                    i as int,
                    numeric,
                ));
                assert(key_spec(s@, numeric) == out@ + gen_from(s@, i as int, numeric)) by {
                    assert(mid.drop_last() + (num_run_elems(run) + gen_from(s@, i as int, numeric))
                        =~= (mid.drop_last() + num_run_elems(run)) + gen_from(
                        s@,
                        i as int,
                        numeric,
                    ));
                }
            }
        } else {
            let ghost i0 = i as int;
            match table.lookup(s, i) {
                Some(m) => {
                    let (step, es) = m;
                    let mut k: usize = 0;
                    let ghost mid = out@;
                    while k < es.len()
                        invariant
                            0 <= k <= es@.len(),
                            out@ == mid + es@.subrange(0, k as int),
                        decreases es@.len() - k,
                    {
                        out.push(es[k]);
                        proof {
                            assert(es@.subrange(0, k + 1 as int) =~= es@.subrange(
                                0,
                                k as int,
                            ).push(es@[k as int]));
                            assert(out@ =~= mid + es@.subrange(0, k + 1 as int));
                        }
                        k = k + 1;
                    }
                    proof {
                        assert(es@.subrange(0, es@.len() as int) =~= es@);
                        assert(gen_from(s@, i0, numeric) == es@ + gen_from(
                            s@,
                            i0 + step,
                            numeric,
                        ));
                        assert((mid + es@) + gen_from(s@, i0 + step, numeric) =~= mid + (es@
                            + gen_from(s@, i0 + step, numeric)));
                    }
                    i = i + step;
                },
                None => {
                    let c = s[i];
                    let u = c as u32;
                    out.push(
                        WeightEntry {
                            primary: 0x200000 + (u as u64),
                            secondary: 1,
                            tertiary: 1,
                            quaternary: 1,
                            upper: false,
                        },
                    );
                    proof {
                        assert(gen_from(s@, i0, numeric) == seq![fallback_entry(s@[i0])]
                            + gen_from(s@, i0 + 1, numeric));
                        assert(out@.drop_last().push(fallback_entry(s@[i0])) =~= out@);
                        assert((out@.drop_last() + seq![fallback_entry(s@[i0])]) + gen_from(
                            s@,
                            i0 + 1,
                            numeric,
                        ) =~= out@.drop_last() + (seq![fallback_entry(s@[i0])] + gen_from(
                            s@,
                            i0 + 1,
                            numeric,
                        )));
                        assert(out@.drop_last() + seq![fallback_entry(s@[i0])] =~= out@);
                    }
                    i = i + 1;
                },
            }
        }
    }
    proof {
        assert(out@ + gen_from(s@, s@.len() as int, numeric) =~= out@);
    }
    out
}

} // verus!
