//! Strictly sorted sequences of `(predicate, parameter)` index pairs, the
//! representation of parameter sets used throughout the engine.

use vstd::prelude::*;

verus! {

broadcast use vstd::seq_lib::group_seq_properties;

/// Lexicographic order on index pairs, the order of `(usize, usize)` tuples.
pub open spec fn pair_lt(a: (usize, usize), b: (usize, usize)) -> bool {
    a.0 < b.0 || (a.0 == b.0 && a.1 < b.1)
}

/// A sequence of pairs in strictly increasing lexicographic order:
/// sorted and without duplicates.
pub open spec fn strictly_sorted(s: Seq<(usize, usize)>) -> bool {
    forall|i: int, j: int| 0 <= i < j < s.len() ==> pair_lt(#[trigger] s[i], #[trigger] s[j])
}

/// Exec comparison of two pairs in lexicographic order.
pub fn pair_less(a: (usize, usize), b: (usize, usize)) -> (r: bool)
    ensures
        r == pair_lt(a, b),
{
    a.0 < b.0 || (a.0 == b.0 && a.1 < b.1)
}

/// The sorted, deduplicated union of two sorted, deduplicated sequences of
/// pairs: what appending the two, sorting and removing duplicates yields.
pub fn merge_sorted(a: &Vec<(usize, usize)>, b: &Vec<(usize, usize)>) -> (r: Vec<(usize, usize)>)
    requires
        strictly_sorted(a@),
        strictly_sorted(b@),
    ensures
        strictly_sorted(r@),
        r@.to_set() == a@.to_set().union(b@.to_set()),
{
    let mut r: Vec<(usize, usize)> = Vec::new();
    let mut i: usize = 0;
    let mut j: usize = 0;
    while i < a.len() || j < b.len()
        invariant
            strictly_sorted(a@),
            strictly_sorted(b@),
            i <= a.len(),
            j <= b.len(),
            strictly_sorted(r@),
            forall|x: (usize, usize)|
                r@.contains(x) <==> (a@.subrange(0, i as int).contains(x) || b@.subrange(
                    0,
                    j as int,
                ).contains(x)),
            r@.len() > 0 ==> (i < a.len() ==> pair_lt(r@.last(), a@[i as int])),
            r@.len() > 0 ==> (j < b.len() ==> pair_lt(r@.last(), b@[j as int])),
        decreases a.len() + b.len() - i - j,
    {
        let ghost old_r = r@;
        if j >= b.len() || (i < a.len() && pair_less(a[i], b[j])) {
            r.push(a[i]);
            proof {
                assert(a@.subrange(0, i + 1) == a@.subrange(0, i as int).push(a@[i as int]));
            }
            i = i + 1;
        } else if i >= a.len() || pair_less(b[j], a[i]) {
            r.push(b[j]);
            proof {
                assert(b@.subrange(0, j + 1) == b@.subrange(0, j as int).push(b@[j as int]));
            }
            j = j + 1;
        } else {
            r.push(a[i]);
            proof {
                assert(a@[i as int] == b@[j as int]);
                assert(a@.subrange(0, i + 1) == a@.subrange(0, i as int).push(a@[i as int]));
                assert(b@.subrange(0, j + 1) == b@.subrange(0, j as int).push(b@[j as int]));
            }
            i = i + 1;
            j = j + 1;
        }
        proof {
            assert forall|p: int, q: int| 0 <= p < q < r@.len() implies pair_lt(
                #[trigger] r@[p],
                #[trigger] r@[q],
            ) by {
                if q == r@.len() - 1 {
                    assert(r@[p] == old_r[p]);
                    if p < old_r.len() - 1 {
                        assert(pair_lt(old_r[p], old_r.last()));
                    }
                } else {
                    assert(r@[p] == old_r[p]);
                    assert(r@[q] == old_r[q]);
                }
            }
        }
    }
    proof {
        assert(a@.subrange(0, a@.len() as int) == a@);
        assert(b@.subrange(0, b@.len() as int) == b@);
        assert(r@.to_set() =~= a@.to_set().union(b@.to_set()));
    }
    r
}

} // verus!
