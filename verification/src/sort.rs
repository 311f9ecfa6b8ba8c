//! Sort orchestrator: orders a list of words under the configured
//! comparison with a stable insertion sort and exposes the public entry
//! point, [`sort_words`].

use vstd::prelude::*;

use crate::compare::chars_of;
use crate::compare::compare;
use crate::compare::compare_spec;
use crate::compare::lemma_compare_antisymmetric;
use crate::compare::lemma_compare_not_greater_transitive;
use crate::config::CollateError;
use crate::config::Config;
use crate::config::Rank;
use crate::table::WeightTable;

verus! {

/// The character sequences of a list of words.
pub open spec fn views_of(words: Seq<String>) -> Seq<Seq<char>> {
    Seq::new(words.len(), |i: int| words[i]@)
}

/// Inserts a word below exactly the run of words that order above it:
/// the insertion step of a stable insertion sort.  A word already in the
/// list that compares equal to the inserted one stays before it.
pub open spec fn insert_sorted_spec(s: Seq<Seq<char>>, w: Seq<char>, cfg: Config) -> Seq<Seq<char>>
    decreases s.len(),
{
    if s.len() == 0 {
        seq![w]
    } else if compare_spec(s.last(), w, cfg) == Rank::Greater {
        insert_sorted_spec(s.drop_last(), w, cfg).push(s.last())
    } else {
        s.push(w)
    }
}

/// Stable insertion sort of a word list under the configured comparison.
pub open spec fn sort_spec(s: Seq<Seq<char>>, cfg: Config) -> Seq<Seq<char>>
    decreases s.len(),
{
    if s.len() == 0 {
        Seq::empty()
    } else {
        insert_sorted_spec(sort_spec(s.drop_last(), cfg), s.last(), cfg)
    }
}

/// Pairwise sortedness: no earlier word orders above a later one.
pub open spec fn sorted_by_spec(s: Seq<Seq<char>>, cfg: Config) -> bool {
    forall|i: int, j: int|
        0 <= i < j < s.len() ==> compare_spec(s[i], s[j], cfg) != Rank::Greater
}

/// Exact position of an insertion: inserting before the maximal tail of
/// greater words realizes [`insert_sorted_spec`].
proof fn lemma_insert_sorted_at(s: Seq<Seq<char>>, w: Seq<char>, cfg: Config, j: int)
    requires
        0 <= j <= s.len(),
        forall|k: int| j <= k < s.len() ==> compare_spec(#[trigger] s[k], w, cfg) == Rank::Greater,
        j > 0 ==> compare_spec(s[j - 1], w, cfg) != Rank::Greater,
    ensures
        insert_sorted_spec(s, w, cfg) == s.insert(j, w),
    decreases s.len(),
{
    if j == s.len() {
        assert(insert_sorted_spec(s, w, cfg) =~= s.insert(j, w));
    } else {
        assert(compare_spec(s[s.len() - 1], w, cfg) == Rank::Greater);
        lemma_insert_sorted_at(s.drop_last(), w, cfg, j);
        assert(insert_sorted_spec(s.drop_last(), w, cfg).push(s.last()) =~= s.insert(j, w));
    }
}

/// The insertion step keeps the list sorted.
proof fn lemma_insert_sorted_sorted(s: Seq<Seq<char>>, w: Seq<char>, cfg: Config, j: int)
    requires
        sorted_by_spec(s, cfg),
        0 <= j <= s.len(),
        forall|k: int| j <= k < s.len() ==> compare_spec(#[trigger] s[k], w, cfg) == Rank::Greater,
        j > 0 ==> compare_spec(s[j - 1], w, cfg) != Rank::Greater,
    ensures
        sorted_by_spec(s.insert(j, w), cfg),
{
    let r = s.insert(j, w);
    assert forall|x: int, y: int| 0 <= x < y < r.len() implies compare_spec(
        r[x],
        r[y],
        cfg,
    ) != Rank::Greater by {
        if y < j {
            assert(r[x] == s[x] && r[y] == s[y]);
        } else if x < j && y == j {
            assert(r[x] == s[x] && r[y] == w);
            if x == j - 1 {
            } else {
                assert(compare_spec(s[x], s[j - 1], cfg) != Rank::Greater);
                lemma_compare_not_greater_transitive(s[x], s[j - 1], w, cfg);
            }
        } else if x < j && y > j {
            assert(r[x] == s[x] && r[y] == s[y - 1]);
            assert(compare_spec(s[x], s[y - 1], cfg) != Rank::Greater);
        } else if x == j && y > j {
            assert(r[x] == w && r[y] == s[y - 1]);
            assert(compare_spec(s[y - 1], w, cfg) == Rank::Greater);
            lemma_compare_antisymmetric(w, s[y - 1], cfg);
        } else {
            assert(x > j && y > j);
            assert(r[x] == s[x - 1] && r[y] == s[y - 1]);
            assert(compare_spec(s[x - 1], s[y - 1], cfg) != Rank::Greater);
        }
    }
}

/// The insertion step adds exactly the inserted word to the contents.
proof fn lemma_insert_sorted_multiset(s: Seq<Seq<char>>, w: Seq<char>, cfg: Config)
    ensures
        insert_sorted_spec(s, w, cfg).to_multiset() == s.to_multiset().insert(w),
    decreases s.len(),
{
    broadcast use vstd::seq_lib::group_to_multiset_ensures;

    if s.len() > 0 && compare_spec(s.last(), w, cfg) == Rank::Greater {
        lemma_insert_sorted_multiset(s.drop_last(), w, cfg);
        assert(s.drop_last().push(s.last()) =~= s);
        assert(s.to_multiset() =~= s.drop_last().to_multiset().insert(s.last()));
        assert(insert_sorted_spec(s, w, cfg).to_multiset() =~= insert_sorted_spec(
            s.drop_last(),
            w,
            cfg,
        ).to_multiset().insert(s.last()));
        assert(s.drop_last().to_multiset().insert(w).insert(s.last())
            =~= s.drop_last().to_multiset().insert(s.last()).insert(w));
    }
}

/// The sorted list is a permutation of the input: sorting keeps exactly
/// the input words, multiplicities included.
pub proof fn lemma_sort_permutation(s: Seq<Seq<char>>, cfg: Config)
    ensures
        sort_spec(s, cfg).to_multiset() == s.to_multiset(),
    decreases s.len(),
{
    broadcast use vstd::seq_lib::group_to_multiset_ensures;

    if s.len() > 0 {
        lemma_sort_permutation(s.drop_last(), cfg);
        lemma_insert_sorted_multiset(sort_spec(s.drop_last(), cfg), s.last(), cfg);
        assert(s.drop_last().push(s.last()) =~= s);
        assert(s.to_multiset() =~= s.drop_last().to_multiset().insert(s.last()));
    }
}

/// The exact shape of one insertion: there is a position whose tail holds
/// exactly the greater words.
#[verifier::rlimit(100)]
proof fn lemma_insert_sorted_split(s: Seq<Seq<char>>, w: Seq<char>, cfg: Config)
    ensures
        exists|j: int|
            0 <= j <= s.len() && insert_sorted_spec(s, w, cfg) == s.insert(j, w) && (forall|k: int|
                j <= k < s.len() ==> compare_spec(#[trigger] s[k], w, cfg) == Rank::Greater) && (j
                > 0 ==> compare_spec(s[j - 1], w, cfg) != Rank::Greater),
    decreases s.len(),
{
    if s.len() == 0 {
        assert(insert_sorted_spec(s, w, cfg) =~= s.insert(0, w));
        assert(0 <= 0 <= s.len() && insert_sorted_spec(s, w, cfg) == s.insert(0, w) && (forall|
            k: int,
        |
            0 <= k < s.len() ==> compare_spec(#[trigger] s[k], w, cfg) == Rank::Greater) && (0 > 0
            ==> compare_spec(s[0 - 1], w, cfg) != Rank::Greater));
    } else if compare_spec(s.last(), w, cfg) == Rank::Greater {
        lemma_insert_sorted_split(s.drop_last(), w, cfg);
        let j = choose|j: int|
            0 <= j <= s.drop_last().len() && insert_sorted_spec(s.drop_last(), w, cfg)
                == s.drop_last().insert(j, w) && (forall|k: int|
                j <= k < s.drop_last().len() ==> compare_spec(
                    #[trigger] s.drop_last()[k],
                    w,
                    cfg,
                ) == Rank::Greater) && (j > 0 ==> compare_spec(s.drop_last()[j - 1], w, cfg)
                != Rank::Greater);
        assert(insert_sorted_spec(s.drop_last(), w, cfg).push(s.last()) =~= s.insert(j, w));
        assert forall|k: int| j <= k < s.len() implies compare_spec(
            #[trigger] s[k],
            w,
            cfg,
        ) == Rank::Greater by {
            if k < s.len() - 1 {
                assert(s[k] == s.drop_last()[k]);
                assert(compare_spec(s.drop_last()[k], w, cfg) == Rank::Greater);
            } else {
                assert(s[k] == s.last());
            }
        }
        assert(0 <= j <= s.len() && insert_sorted_spec(s, w, cfg) == s.insert(j, w) && (forall|
            k: int,
        |
            j <= k < s.len() ==> compare_spec(#[trigger] s[k], w, cfg) == Rank::Greater) && (j > 0
            ==> compare_spec(s[j - 1], w, cfg) != Rank::Greater));
    } else {
        let j = s.len() as int;
        assert(insert_sorted_spec(s, w, cfg) =~= s.insert(j, w));
        assert(0 <= j <= s.len() && insert_sorted_spec(s, w, cfg) == s.insert(j, w) && (forall|
            k: int,
        |
            j <= k < s.len() ==> compare_spec(#[trigger] s[k], w, cfg) == Rank::Greater) && (j > 0
            ==> compare_spec(s[j - 1], w, cfg) != Rank::Greater));
    }
}

/// The sorted list is sorted: no earlier word orders above a later one.
pub proof fn lemma_sort_sorted(s: Seq<Seq<char>>, cfg: Config)
    ensures
        sorted_by_spec(sort_spec(s, cfg), cfg),
    decreases s.len(),
{
    if s.len() > 0 {
        lemma_sort_sorted(s.drop_last(), cfg);
        let sorted = sort_spec(s.drop_last(), cfg);
        lemma_insert_sorted_split(sorted, s.last(), cfg);
        let j = choose|j: int|
            0 <= j <= sorted.len() && insert_sorted_spec(sorted, s.last(), cfg) == sorted.insert(
                j,
                s.last(),
            ) && (forall|k: int|
                j <= k < sorted.len() ==> compare_spec(#[trigger] sorted[k], s.last(), cfg)
                    == Rank::Greater) && (j > 0 ==> compare_spec(sorted[j - 1], s.last(), cfg)
                != Rank::Greater);
        lemma_insert_sorted_sorted(sorted, s.last(), cfg, j);
    }
}

/// Sorts a list of words under the configured comparison.
///
/// The result is the stable insertion sort of the input: a permutation of
/// the input words ([`lemma_sort_permutation`]), pairwise sorted under the
/// comparison ([`lemma_sort_sorted`]), with words that compare equal kept
/// in their input order.  The verified core works on already-decoded
/// characters, which are valid Unicode by construction, so no input is
/// rejected and the result is always `Ok`.
pub fn sort_words(words: &Vec<String>, options: &Config) -> (r: Result<Vec<String>, CollateError>)
    ensures
        match r {
            Ok(sorted) => {
                &&& views_of(sorted@) == sort_spec(views_of(words@), *options)
                &&& sorted_by_spec(views_of(sorted@), *options)
                &&& views_of(sorted@).to_multiset() == views_of(words@).to_multiset()
            },
            Err(_) => false,
        },
{
    let table = match WeightTable::try_new() {
        Ok(t) => t,
        Err(_) => WeightTable {  },
    };
    let mut out: Vec<String> = Vec::new();
    let mut i: usize = 0;
    proof {
        assert(views_of(words@.take(0)) =~= Seq::<Seq<char>>::empty());
        assert(views_of(out@) =~= Seq::<Seq<char>>::empty());
    }
    while i < words.len()
        invariant
            0 <= i <= words@.len(),
            views_of(out@) == sort_spec(views_of(words@.take(i as int)), *options),
        decreases words@.len() - i,
    {
        let w = words[i].clone();
        let wc = chars_of(w.as_str());
        let ghost prev = views_of(out@);
        let mut j: usize = out.len();
        while j > 0
            invariant
                0 <= j <= out@.len(),
                wc@ == w@,
                views_of(out@) == prev,
                forall|k: int|
                    j <= k < out@.len() ==> compare_spec(
                        #[trigger] prev[k],
                        wc@,
                        *options,
                    ) == Rank::Greater,
            ensures
                0 <= j <= out@.len(),
                views_of(out@) == prev,
                forall|k: int|
                    j <= k < out@.len() ==> compare_spec(
                        #[trigger] prev[k],
                        wc@,
                        *options,
                    ) == Rank::Greater,
                j > 0 ==> compare_spec(prev[j - 1], wc@, *options) != Rank::Greater,
            decreases j,
        {
            let oc = chars_of(out[j - 1].as_str());
            let r = compare(&oc, &wc, &table, options);
            proof {
                assert(oc@ == prev[j - 1]);
            }
            if !(r == Rank::Greater) {
                break ;
            }
            j = j - 1;
        }
        proof {
            lemma_insert_sorted_at(prev, wc@, *options, j as int);
        }
        out.insert(j, w);
        proof {
            assert(views_of(out@) =~= prev.insert(j as int, wc@));
            assert(views_of(words@.take(i + 1 as int)).drop_last() =~= views_of(
                words@.take(i as int),
            ));
            assert(views_of(words@.take(i + 1 as int)).last() == words@[i as int]@);
            assert(views_of(words@.take(i + 1 as int)) =~= views_of(
                words@.take(i as int),
            ).push(words@[i as int]@));
        }
        i = i + 1;
    }
    proof {
        assert(words@.take(words@.len() as int) =~= words@);
        lemma_sort_sorted(views_of(words@), *options);
        lemma_sort_permutation(views_of(words@), *options);
    }
    Ok(out)
}

} // verus!
