//! Verified index sorting: reorders a vector of indices by keys drawn
//! from a table, by selection of the extremal remaining key. The
//! result is the same multiset of indices, ordered by key.

use vstd::multiset::Multiset;
use vstd::prelude::*;

use crate::collector::copy_vec;
use crate::strutil::{lex_lt, lemma_lex_transitive, lemma_lex_trichotomy, str_lt};

verus! {

broadcast use vstd::seq_lib::group_to_multiset_ensures;

/// Non-strict lexicographic order.
pub open spec fn lex_le(a: Seq<char>, b: Seq<char>) -> bool {
    a == b || lex_lt(a, b)
}

/// Sorts indices by their `u64` keys, largest key first. Ties keep no
/// particular order.
pub fn sort_indices_desc_u64(indices: &Vec<usize>, keys: &Vec<u64>) -> (r: Vec<usize>)
    requires
        forall|k: int| 0 <= k < indices@.len() ==> (#[trigger] indices@[k]) < keys@.len(),
    ensures
        r@.to_multiset() == indices@.to_multiset(),
        r@.len() == indices@.len(),
        forall|k: int| 0 <= k < r@.len() ==> (#[trigger] r@[k]) < keys@.len(),
        forall|i: int, j: int|
            0 <= i < j < r@.len() ==> keys@[#[trigger] r@[i] as int] >= keys@[#[trigger] r@[
                j
            ] as int],
{
    let mut src = copy_vec(indices);
    let mut out: Vec<usize> = Vec::new();
    while src.len() > 0
        invariant
            forall|k: int| 0 <= k < src@.len() ==> (#[trigger] src@[k]) < keys@.len(),
            forall|k: int| 0 <= k < out@.len() ==> (#[trigger] out@[k]) < keys@.len(),
            out@.to_multiset().add(src@.to_multiset()) == indices@.to_multiset(),
            out@.len() + src@.len() == indices@.len(),
            forall|i: int, j: int|
                0 <= i < j < out@.len() ==> keys@[#[trigger] out@[i] as int] >= keys@[
                    #[trigger] out@[j] as int
                ],
            forall|i: int, j: int|
                0 <= i < out@.len() && 0 <= j < src@.len() ==> keys@[#[trigger] out@[
                    i
                ] as int] >= keys@[#[trigger] src@[j] as int],
        decreases src.len(),
    {
        let mut m: usize = 0;
        let mut t: usize = 1;
        while t < src.len()
            invariant
                0 <= m < src@.len(),
                1 <= t <= src@.len(),
                forall|k: int| 0 <= k < src@.len() ==> (#[trigger] src@[k]) < keys@.len(),
                forall|j: int|
                    0 <= j < t ==> keys@[src@[m as int] as int] >= keys@[#[trigger] src@[
                        j
                    ] as int],
            decreases src.len() - t,
        {
            if keys[src[t]] > keys[src[m]] {
                m = t;
            }
            t = t + 1;
        }
        let ghost old_src = src@;
        let ghost old_out = out@;
        let x = src.remove(m);
        out.push(x);
        proof {
            assert(x == old_src[m as int]);
            assert(old_src.to_multiset().count(x) > 0);
            assert(src@.to_multiset() =~= old_src.to_multiset().remove(x));
            assert(out@.to_multiset() =~= old_out.to_multiset().insert(x));
            assert(out@.to_multiset().add(src@.to_multiset()) =~= old_out.to_multiset().add(
                old_src.to_multiset(),
            ));
            assert forall|j: int| 0 <= j < src@.len() implies keys@[x as int] >= keys@[
                #[trigger] src@[j] as int
            ] by {
                old_src.remove_ensures(m as int);
                if j < m {
                    assert(src@[j] == old_src[j]);
                } else {
                    assert(src@[j] == old_src[j + 1]);
                }
            }
        }
    }
    proof {
        assert(src@.to_multiset() =~= Multiset::<usize>::empty());
        assert(out@.to_multiset().add(Multiset::<usize>::empty()) =~= out@.to_multiset());
    }
    out
}

/// Sorts indices by their string keys, lexicographically smallest
/// first. Ties keep no particular order.
pub fn sort_indices_asc_str(indices: &Vec<usize>, keys: &Vec<String>) -> (r: Vec<usize>)
    requires
        forall|k: int| 0 <= k < indices@.len() ==> (#[trigger] indices@[k]) < keys@.len(),
    ensures
        r@.to_multiset() == indices@.to_multiset(),
        r@.len() == indices@.len(),
        forall|k: int| 0 <= k < r@.len() ==> (#[trigger] r@[k]) < keys@.len(),
        forall|i: int, j: int|
            0 <= i < j < r@.len() ==> lex_le(
                keys@[#[trigger] r@[i] as int]@,
                keys@[#[trigger] r@[j] as int]@,
            ),
{
    let mut src = copy_vec(indices);
    let mut out: Vec<usize> = Vec::new();
    while src.len() > 0
        invariant
            forall|k: int| 0 <= k < src@.len() ==> (#[trigger] src@[k]) < keys@.len(),
            forall|k: int| 0 <= k < out@.len() ==> (#[trigger] out@[k]) < keys@.len(),
            out@.to_multiset().add(src@.to_multiset()) == indices@.to_multiset(),
            out@.len() + src@.len() == indices@.len(),
            forall|i: int, j: int|
                0 <= i < j < out@.len() ==> lex_le(
                    keys@[#[trigger] out@[i] as int]@,
                    keys@[#[trigger] out@[j] as int]@,
                ),
            forall|i: int, j: int|
                0 <= i < out@.len() && 0 <= j < src@.len() ==> lex_le(
                    keys@[#[trigger] out@[i] as int]@,
                    keys@[#[trigger] src@[j] as int]@,
                ),
        decreases src.len(),
    {
        let mut m: usize = 0;
        let mut t: usize = 1;
        while t < src.len()
            invariant
                0 <= m < src@.len(),
                1 <= t <= src@.len(),
                forall|k: int| 0 <= k < src@.len() ==> (#[trigger] src@[k]) < keys@.len(),
                forall|j: int|
                    0 <= j < t ==> lex_le(
                        keys@[src@[m as int] as int]@,
                        keys@[#[trigger] src@[j] as int]@,
                    ),
            decreases src.len() - t,
        {
            let ghost old_m = m;
            if str_lt(keys[src[t]].as_str(), keys[src[m]].as_str()) {
                proof {
                    let kt = keys@[src@[t as int] as int]@;
                    let km = keys@[src@[old_m as int] as int]@;
                    assert forall|j: int| 0 <= j < t implies lex_le(
                        kt,
                        keys@[#[trigger] src@[j] as int]@,
                    ) by {
                        let kj = keys@[src@[j] as int]@;
                        if km == kj {
                        } else {
                            lemma_lex_transitive(kt, km, kj);
                        }
                    }
                }
                m = t;
            } else {
                proof {
                    lemma_lex_trichotomy(
                        keys@[src@[t as int] as int]@,
                        keys@[src@[m as int] as int]@,
                    );
                }
            }
            t = t + 1;
        }
        let ghost old_src = src@;
        let ghost old_out = out@;
        let x = src.remove(m);
        out.push(x);
        proof {
            assert(x == old_src[m as int]);
            assert(old_src.to_multiset().count(x) > 0);
            assert(src@.to_multiset() =~= old_src.to_multiset().remove(x));
            assert(out@.to_multiset() =~= old_out.to_multiset().insert(x));
            assert(out@.to_multiset().add(src@.to_multiset()) =~= old_out.to_multiset().add(
                old_src.to_multiset(),
            ));
            assert forall|j: int| 0 <= j < src@.len() implies lex_le(
                keys@[x as int]@,
                keys@[#[trigger] src@[j] as int]@,
            ) by {
                old_src.remove_ensures(m as int);
                if j < m {
                    assert(src@[j] == old_src[j]);
                } else {
                    assert(src@[j] == old_src[j + 1]);
                }
            }
        }
    }
    proof {
        assert(src@.to_multiset() =~= Multiset::<usize>::empty());
        assert(out@.to_multiset().add(Multiset::<usize>::empty()) =~= out@.to_multiset());
    }
    out
}

} // verus!
