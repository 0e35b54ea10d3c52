//! Sorting prefixes by address, then by prefix length.

use vstd::prelude::*;
use vstd::multiset::Multiset;
use crate::cover::{ordered, precedes};
use crate::prefix::{Prefix, blocks};

verus! {

/// Whether `a` comes no later than `b` by address, then by prefix length.
pub fn comes_first(a: &Prefix, b: &Prefix) -> (r: bool)
    ensures
        r == precedes(a@, b@),
        !r ==> precedes(b@, a@),
{
    a.addr < b.addr || (a.addr == b.addr && a.len <= b.len)
}

/// One more element on the left keeps the count of elements.
proof fn lemma_insert_left(out: Seq<Prefix>, a: Seq<Prefix>, b: Seq<Prefix>, x: Prefix)
    requires
        out.to_multiset() == a.to_multiset().add(b.to_multiset()),
    ensures
        out.push(x).to_multiset() == a.push(x).to_multiset().add(b.to_multiset()),
{
    broadcast use vstd::multiset::group_multiset_axioms;

    vstd::seq_lib::to_multiset_build(out, x);
    vstd::seq_lib::to_multiset_build(a, x);
    assert(out.to_multiset().insert(x) =~= a.to_multiset().insert(x).add(b.to_multiset()));
}

/// One more element on the right keeps the count of elements.
proof fn lemma_insert_right(out: Seq<Prefix>, a: Seq<Prefix>, b: Seq<Prefix>, x: Prefix)
    requires
        out.to_multiset() == a.to_multiset().add(b.to_multiset()),
    ensures
        out.push(x).to_multiset() == a.to_multiset().add(b.push(x).to_multiset()),
{
    broadcast use vstd::multiset::group_multiset_axioms;

    vstd::seq_lib::to_multiset_build(out, x);
    vstd::seq_lib::to_multiset_build(b, x);
    assert(out.to_multiset().insert(x) =~= a.to_multiset().add(b.to_multiset().insert(x)));
}

/// Merges two ordered lists into one ordered list of all their prefixes.
pub fn merge_ordered(a: &Vec<Prefix>, b: &Vec<Prefix>) -> (out: Vec<Prefix>)
    requires
        ordered(blocks(a@)),
        ordered(blocks(b@)),
    ensures
        ordered(blocks(out@)),
        out@.to_multiset() == a@.to_multiset().add(b@.to_multiset()),
{
    let mut out: Vec<Prefix> = Vec::new();
    let mut i: usize = 0;
    let mut j: usize = 0;
    proof {
        assert(a@.take(0) =~= Seq::<Prefix>::empty());
        assert(b@.take(0) =~= Seq::<Prefix>::empty());
        assert(out@ =~= a@.take(0) + b@.take(0));
        vstd::seq_lib::lemma_multiset_commutative(a@.take(0), b@.take(0));
    }
    while i < a.len() || j < b.len()
        invariant
            i <= a.len(),
            j <= b.len(),
            ordered(blocks(a@)),
            ordered(blocks(b@)),
            ordered(blocks(out@)),
            out@.to_multiset() == a@.take(i as int).to_multiset().add(b@.take(j as int).to_multiset()),
            forall|k: int, m: int|
                0 <= k < out.len() && i <= m < a.len() ==> precedes(
                    #[trigger] blocks(out@)[k],
                    #[trigger] blocks(a@)[m],
                ),
            forall|k: int, m: int|
                0 <= k < out.len() && j <= m < b.len() ==> precedes(
                    #[trigger] blocks(out@)[k],
                    #[trigger] blocks(b@)[m],
                ),
        decreases (a.len() - i) + (b.len() - j),
    {
        let from_a = if i < a.len() && j < b.len() {
            comes_first(&a[i], &b[j])
        } else {
            i < a.len()
        };
        let ghost before = out@;
        if from_a {
            let x = a[i];
            out.push(x);
            proof {
                assert(blocks(a@)[i as int] == x@);
                assert(a@.take(i + 1) =~= a@.take(i as int).push(x));
                lemma_insert_left(before, a@.take(i as int), b@.take(j as int), x);
                assert(blocks(out@) =~= blocks(before).push(x@));
                assert forall|k: int, m: int| 0 <= k < out.len() && j <= m < b.len() implies precedes(
                    #[trigger] blocks(out@)[k],
                    #[trigger] blocks(b@)[m],
                ) by {
                    if k == before.len() {
                        assert(blocks(b@)[j as int] == b@[j as int]@);
                        assert(precedes(x@, blocks(b@)[j as int]));
                        if m > j {
                            assert(precedes(blocks(b@)[j as int], blocks(b@)[m]));
                        }
                    } else {
                        assert(blocks(out@)[k] == blocks(before)[k]);
                    }
                }
                assert forall|k: int, m: int|
                    0 <= k < out.len() && i + 1 <= m < a.len() implies precedes(
                    #[trigger] blocks(out@)[k],
                    #[trigger] blocks(a@)[m],
                ) by {
                    if k == before.len() {
                        assert(precedes(blocks(a@)[i as int], blocks(a@)[m]));
                    } else {
                        assert(blocks(out@)[k] == blocks(before)[k]);
                    }
                }
                assert forall|k: int, m: int| 0 <= k < m < blocks(out@).len() implies precedes(
                    #[trigger] blocks(out@)[k],
                    #[trigger] blocks(out@)[m],
                ) by {
                    if m == before.len() {
                        assert(precedes(blocks(before)[k], blocks(a@)[i as int]));
                    } else {
                        assert(precedes(blocks(before)[k], blocks(before)[m]));
                    }
                }
            }
            i += 1;
        } else {
            let x = b[j];
            out.push(x);
            proof {
                assert(blocks(b@)[j as int] == x@);
                assert(b@.take(j + 1) =~= b@.take(j as int).push(x));
                lemma_insert_right(before, a@.take(i as int), b@.take(j as int), x);
                assert(blocks(out@) =~= blocks(before).push(x@));
                assert forall|k: int, m: int| 0 <= k < out.len() && i <= m < a.len() implies precedes(
                    #[trigger] blocks(out@)[k],
                    #[trigger] blocks(a@)[m],
                ) by {
                    if k == before.len() {
                        assert(blocks(a@)[i as int] == a@[i as int]@);
                        assert(precedes(x@, blocks(a@)[i as int]));
                        if m > i {
                            assert(precedes(blocks(a@)[i as int], blocks(a@)[m]));
                        }
                    } else {
                        assert(blocks(out@)[k] == blocks(before)[k]);
                    }
                }
                assert forall|k: int, m: int|
                    0 <= k < out.len() && j + 1 <= m < b.len() implies precedes(
                    #[trigger] blocks(out@)[k],
                    #[trigger] blocks(b@)[m],
                ) by {
                    if k == before.len() {
                        assert(precedes(blocks(b@)[j as int], blocks(b@)[m]));
                    } else {
                        assert(blocks(out@)[k] == blocks(before)[k]);
                    }
                }
                assert forall|k: int, m: int| 0 <= k < m < blocks(out@).len() implies precedes(
                    #[trigger] blocks(out@)[k],
                    #[trigger] blocks(out@)[m],
                ) by {
                    if m == before.len() {
                        assert(precedes(blocks(before)[k], blocks(b@)[j as int]));
                    } else {
                        assert(precedes(blocks(before)[k], blocks(before)[m]));
                    }
                }
            }
            j += 1;
        }
    }
    proof {
        assert(a@.take(a.len() as int) =~= a@);
        assert(b@.take(b.len() as int) =~= b@);
    }
    out
}

/// Sorts the prefixes by address, then by prefix length: the result holds
/// the same prefixes, each as often as before, in ascending order.
pub fn sort(v: Vec<Prefix>) -> (out: Vec<Prefix>)
    ensures
        ordered(blocks(out@)),
        out@.to_multiset() == v@.to_multiset(),
    decreases v.len(),
{
    if v.len() <= 1 {
        return v;
    }
    let mid = v.len() / 2;
    let mut left = v;
    let right = left.split_off(mid);
    proof {
        assert(v@ =~= left@ + right@);
        vstd::seq_lib::lemma_multiset_commutative(left@, right@);
    }
    let left = sort(left);
    let right = sort(right);
    merge_ordered(&left, &right)
}

} // verus!
