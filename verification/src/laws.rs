//! What holds of every aggregate: it is determined by the addresses it
//! covers, so aggregating is idempotent and blind to the order of its input.

use vstd::prelude::*;
use crate::block::{
    Block, span, lemma_span, lemma_nested_or_apart, lemma_contains_is_inclusion, lemma_same_range,
    lemma_halves, lemma_siblings_join,
};
use crate::cover::{
    all_valid, covered, same_cover, separated, no_siblings, is_minimal, is_aggregate,
    lemma_covering_block,
};
use crate::prefix::{Prefix, blocks};
use crate::aggregate::lemma_permuted;

verus! {

/// `outer` reaches over all of `inner`.
pub open spec fn encloses(w: nat, outer: Block, inner: Block) -> bool {
    outer.addr <= inner.addr && inner.end(w) <= outer.end(w)
}

/// Some block of the list reaches over all of `c`.
pub open spec fn enclosed_by_one(w: nat, s: Seq<Block>, c: Block) -> bool {
    exists|i: int| 0 <= i < s.len() && encloses(w, #[trigger] s[i], c)
}

/// A valid block that encloses a valid block no longer than itself is
/// that block.
proof fn lemma_enclosing_not_longer(w: nat, outer: Block, inner: Block)
    requires
        outer.valid(w),
        inner.valid(w),
        encloses(w, outer, inner),
        outer.len >= inner.len,
    ensures
        outer == inner,
{
    lemma_span(w, 0, inner.len);
    lemma_span(w, inner.len, outer.len);
    lemma_same_range(w, outer, inner);
}

/// A block that a list covers address by address, but no single block of
/// the list encloses, is put together from smaller blocks of the list, and
/// two of those are siblings.
pub proof fn lemma_pieces_hold_siblings(w: nat, s: Seq<Block>, c: Block)
    requires
        all_valid(w, s),
        c.valid(w),
        forall|x: int| c.has(w, x) ==> covered(w, s, x),
        !enclosed_by_one(w, s, c),
    ensures
        !no_siblings(w, s),
    decreases w - c.len,
{
    lemma_span(w, 0, c.len);
    if c.len == w {
        assert(span(w, w) == 1) by {
            vstd::arithmetic::power2::lemma2_to64();
        }
        assert(c.has(w, c.addr));
        let i = lemma_covering_block(w, s, c.addr);
        assert(encloses(w, s[i], c));
    } else {
        let lo = Block { addr: c.addr, len: c.len + 1 };
        let hi = Block { addr: c.addr + span(w, c.len + 1), len: c.len + 1 };
        lemma_halves(w, c);
        lemma_span(w, 0, lo.len);
        assert forall|x: int| lo.has(w, x) implies covered(w, s, x) by {
            assert(c.has(w, x));
        }
        assert forall|x: int| hi.has(w, x) implies covered(w, s, x) by {
            assert(c.has(w, x));
        }
        if !enclosed_by_one(w, s, lo) {
            lemma_pieces_hold_siblings(w, s, lo);
        } else if !enclosed_by_one(w, s, hi) {
            lemma_pieces_hold_siblings(w, s, hi);
        } else {
            let i = choose|i: int| 0 <= i < s.len() && encloses(w, #[trigger] s[i], lo);
            let j = choose|j: int| 0 <= j < s.len() && encloses(w, #[trigger] s[j], hi);
            lemma_half_is_member(w, s[i], c, lo);
            lemma_half_is_member(w, s[j], c, hi);
            assert(s[i].sibling_of(w, s[j]));
        }
    }
}

/// A valid block that encloses one half of `c` but not `c` is that half.
proof fn lemma_half_is_member(w: nat, b: Block, c: Block, half: Block)
    requires
        b.valid(w),
        c.valid(w),
        half.valid(w),
        half.len == c.len + 1,
        encloses(w, c, half),
        encloses(w, b, half),
        !encloses(w, b, c),
    ensures
        b == half,
{
    lemma_span(w, 0, half.len);
    lemma_span(w, 0, c.len);
    lemma_span(w, 0, b.len);
    if b.len <= c.len {
        lemma_nested_or_apart(w, b, c);
    } else {
        lemma_span(w, half.len, b.len);
        lemma_same_range(w, b, half);
    }
}

/// Every block of a minimal list is a block of any minimal list with the
/// same cover.
pub proof fn lemma_member(w: nat, a: Seq<Block>, b: Seq<Block>, i: int) -> (j: int)
    requires
        is_minimal(w, a),
        is_minimal(w, b),
        same_cover(w, a, b),
        0 <= i < a.len(),
    ensures
        0 <= j < b.len(),
        b[j] == a[i],
{
    let c = a[i];
    lemma_span(w, 0, c.len);
    assert(c.has(w, c.addr));
    assert(covered(w, a, c.addr));
    assert(covered(w, b, c.addr));
    let j = lemma_covering_block(w, b, c.addr);
    let d = b[j];
    lemma_span(w, 0, d.len);
    if d.len <= c.len {
        lemma_nested_or_apart(w, d, c);
        assert(encloses(w, d, c));
        if d != c {
            if d.len == c.len {
                lemma_enclosing_not_longer(w, d, c);
            }
            // `d` is wider than `c`, so `a` covers it in pieces
            assert forall|x: int| d.has(w, x) implies covered(w, a, x) by {
                assert(covered(w, b, x));
            }
            if enclosed_by_one(w, a, d) {
                let k = choose|k: int| 0 <= k < a.len() && encloses(w, #[trigger] a[k], d);
                lemma_apart_or_same(w, a, k, i, c.addr);
                lemma_squeezed(w, a[k], d, c);
            }
            lemma_pieces_hold_siblings(w, a, d);
        }
    } else {
        lemma_nested_or_apart(w, c, d);
        assert(encloses(w, c, d));
        assert forall|x: int| c.has(w, x) implies covered(w, b, x) by {
            assert(covered(w, a, x));
        }
        if enclosed_by_one(w, b, c) {
            let k = choose|k: int| 0 <= k < b.len() && encloses(w, #[trigger] b[k], c);
            lemma_apart_or_same(w, b, k, j, c.addr);
            lemma_same_range(w, d, c);
        }
        lemma_pieces_hold_siblings(w, b, c);
    }
    j
}

/// Two blocks of a separated list that hold one address are one block of
/// the list.
pub proof fn lemma_apart_or_same(w: nat, s: Seq<Block>, i: int, j: int, x: int)
    requires
        separated(w, s),
        0 <= i < s.len(),
        0 <= j < s.len(),
        s[i].has(w, x),
        s[j].has(w, x),
    ensures
        i == j,
{
    if i < j {
        assert(s[i].end(w) <= s[j].addr);
    } else if j < i {
        assert(s[j].end(w) <= s[i].addr);
    }
}

/// A block between two that are one block is that block.
proof fn lemma_squeezed(w: nat, outer: Block, mid: Block, inner: Block)
    requires
        outer.valid(w),
        mid.valid(w),
        inner.valid(w),
        encloses(w, outer, mid),
        encloses(w, mid, inner),
        outer == inner,
    ensures
        mid == inner,
{
    lemma_same_range(w, mid, inner);
}

/// Two minimal lists with the same cover agree on their first `k` blocks.
proof fn lemma_agree_upto(w: nat, a: Seq<Block>, b: Seq<Block>, k: int)
    requires
        is_minimal(w, a),
        is_minimal(w, b),
        same_cover(w, a, b),
        0 <= k <= a.len(),
    ensures
        k <= b.len(),
        forall|i: int| 0 <= i < k ==> a[i] == b[i],
    decreases k,
{
    if k > 0 {
        lemma_agree_upto(w, a, b, k - 1);
        let c = a[k - 1];
        lemma_span(w, 0, c.len);
        let j = lemma_member(w, a, b, k - 1);
        if j < k - 1 {
            assert(a[j] == b[j]);
            assert(a[j].end(w) <= a[k - 1].addr);
        } else if j > k - 1 {
            let d = b[k - 1];
            lemma_span(w, 0, d.len);
            let m = lemma_member(w, b, a, k - 1);
            assert(b[k - 1].end(w) <= b[j].addr);
            if m < k - 1 {
                assert(a[m] == b[m]);
                assert(b[m].end(w) <= b[k - 1].addr);
            } else if m > k - 1 {
                assert(a[k - 1].end(w) <= a[m].addr);
            }
        }
    }
}

/// A minimal list is determined by the addresses it covers.
pub proof fn lemma_minimal_unique(w: nat, a: Seq<Block>, b: Seq<Block>)
    requires
        is_minimal(w, a),
        is_minimal(w, b),
        same_cover(w, a, b),
    ensures
        a == b,
{
    lemma_agree_upto(w, a, b, a.len() as int);
    lemma_agree_upto(w, b, a, b.len() as int);
    assert(a =~= b);
}

/// Prefix lists that stand for the same blocks are the same list.
pub proof fn lemma_blocks_injective(s: Seq<Prefix>, t: Seq<Prefix>)
    requires
        blocks(s) == blocks(t),
    ensures
        s == t,
{
    assert(s.len() == blocks(s).len());
    assert(t.len() == blocks(t).len());
    assert forall|i: int| 0 <= i < s.len() implies s[i] == t[i] by {
        assert(blocks(s)[i] == s[i]@);
        assert(blocks(t)[i] == t[i]@);
    }
    assert(s =~= t);
}

/// Aggregating an aggregate gives it back unchanged.
pub proof fn law_idempotent(w: nat, inp: Seq<Block>, out: Seq<Block>, again: Seq<Block>)
    requires
        is_aggregate(w, out, inp),
        is_aggregate(w, again, out),
    ensures
        again == out,
{
    lemma_minimal_unique(w, again, out);
}

/// The aggregate covers exactly the addresses that its input covers.
pub proof fn law_same_addresses(w: nat, inp: Seq<Block>, out: Seq<Block>, x: int)
    requires
        is_aggregate(w, out, inp),
    ensures
        covered(w, out, x) == covered(w, inp, x),
{
}

/// No address lies in two entries of an aggregate.
pub proof fn law_disjoint(w: nat, inp: Seq<Block>, out: Seq<Block>, i: int, j: int, x: int)
    requires
        is_aggregate(w, out, inp),
        0 <= i < out.len(),
        0 <= j < out.len(),
        i != j,
    ensures
        !(out[i].has(w, x) && out[j].has(w, x)),
{
    if out[i].has(w, x) && out[j].has(w, x) {
        lemma_apart_or_same(w, out, i, j, x);
    }
}

/// Two entries of an aggregate are not siblings, and neither contains the
/// other.
pub proof fn law_maximal(w: nat, inp: Seq<Block>, out: Seq<Block>, i: int, j: int)
    requires
        is_aggregate(w, out, inp),
        0 <= i < out.len(),
        0 <= j < out.len(),
        i != j,
    ensures
        !out[i].sibling_of(w, out[j]),
        !out[i].contains(w, out[j]),
        !out[j].contains(w, out[i]),
{
    lemma_span(w, 0, out[i].len);
    lemma_span(w, 0, out[j].len);
    lemma_contains_is_inclusion(w, out[i], out[j]);
    lemma_contains_is_inclusion(w, out[j], out[i]);
    if i < j {
        assert(out[i].end(w) <= out[j].addr);
    } else {
        assert(out[j].end(w) <= out[i].addr);
    }
}

/// A list of one valid block is minimal.
pub proof fn lemma_single_is_minimal(w: nat, b: Block)
    requires
        b.valid(w),
    ensures
        is_minimal(w, seq![b]),
{
}

/// Nothing aggregates to nothing.
pub proof fn law_empty(w: nat, out: Seq<Block>)
    requires
        is_aggregate(w, out, Seq::<Block>::empty()),
    ensures
        out == Seq::<Block>::empty(),
{
    lemma_minimal_unique(w, out, Seq::<Block>::empty());
}

/// Two siblings aggregate to their parent.
pub proof fn law_siblings_merge(w: nat, a: Block, b: Block, out: Seq<Block>)
    requires
        a.valid(w),
        b.valid(w),
        a.sibling_of(w, b),
        is_aggregate(w, out, seq![a, b]),
    ensures
        out == seq![a.parent(w)],
{
    let p = a.parent(w);
    let inp = seq![a, b];
    if a.addr < b.addr {
        lemma_siblings_join(w, a, b);
    } else {
        lemma_siblings_join(w, b, a);
    }
    lemma_single_is_minimal(w, p);
    assert forall|x: int| covered(w, out, x) == covered(w, seq![p], x) by {
        if covered(w, inp, x) {
            let i = lemma_covering_block(w, inp, x);
            assert(seq![p][0].has(w, x));
        }
        if covered(w, seq![p], x) {
            let i = lemma_covering_block(w, seq![p], x);
            if a.has(w, x) {
                assert(inp[0].has(w, x));
            } else {
                assert(inp[1].has(w, x));
            }
        }
    }
    lemma_minimal_unique(w, out, seq![p]);
}

/// A block and a block that it contains aggregate to the first alone.
pub proof fn law_contained_is_absorbed(w: nat, outer: Block, inner: Block, out: Seq<Block>)
    requires
        outer.valid(w),
        inner.valid(w),
        outer.contains(w, inner),
        is_aggregate(w, out, seq![outer, inner]),
    ensures
        out == seq![outer],
{
    let inp = seq![outer, inner];
    lemma_contains_is_inclusion(w, outer, inner);
    lemma_single_is_minimal(w, outer);
    assert forall|x: int| covered(w, out, x) == covered(w, seq![outer], x) by {
        if covered(w, inp, x) {
            let i = lemma_covering_block(w, inp, x);
            assert(seq![outer][0].has(w, x));
        }
        if covered(w, seq![outer], x) {
            let i = lemma_covering_block(w, seq![outer], x);
            assert(inp[0].has(w, x));
        }
    }
    lemma_minimal_unique(w, out, seq![outer]);
}

/// Where the input holds a block of length zero, the aggregate is that
/// block alone: the whole address space.
pub proof fn law_whole_space(w: nat, inp: Seq<Block>, out: Seq<Block>, i: int)
    requires
        all_valid(w, inp),
        0 <= i < inp.len(),
        inp[i].len == 0,
        is_aggregate(w, out, inp),
    ensures
        out == seq![Block { addr: 0, len: 0 }],
{
    let whole = Block { addr: 0, len: 0 };
    lemma_span(w, 0, 0);
    assert(inp[i].valid(w));
    assert(inp[i] == whole);
    lemma_single_is_minimal(w, whole);
    assert forall|x: int| covered(w, out, x) == covered(w, seq![whole], x) by {
        if covered(w, inp, x) {
            let k = lemma_covering_block(w, inp, x);
            assert(inp[k].valid(w));
            lemma_span(w, 0, inp[k].len);
            assert(seq![whole][0].has(w, x));
        }
        if covered(w, seq![whole], x) {
            let k = lemma_covering_block(w, seq![whole], x);
            assert(inp[i].has(w, x));
        }
    }
    lemma_minimal_unique(w, out, seq![whole]);
}

/// Inputs that cover the same addresses have the same aggregate.
pub proof fn law_cover_decides(
    w: nat,
    left: Seq<Block>,
    right: Seq<Block>,
    left_out: Seq<Block>,
    right_out: Seq<Block>,
)
    requires
        is_aggregate(w, left_out, left),
        is_aggregate(w, right_out, right),
        same_cover(w, left, right),
    ensures
        left_out == right_out,
{
    lemma_minimal_unique(w, left_out, right_out);
}

/// The aggregate does not depend on the order of the input: two lists
/// with the same prefixes, each as often as in the other, aggregate to the
/// same list, entry for entry.
pub proof fn law_order_blind(
    w: nat,
    left: Seq<Prefix>,
    right: Seq<Prefix>,
    left_out: Seq<Prefix>,
    right_out: Seq<Prefix>,
)
    requires
        is_aggregate(w, blocks(left_out), blocks(left)),
        is_aggregate(w, blocks(right_out), blocks(right)),
        left.to_multiset() == right.to_multiset(),
    ensures
        left_out == right_out,
{
    lemma_permuted(w, left, right);
    lemma_minimal_unique(w, blocks(left_out), blocks(right_out));
    lemma_blocks_injective(left_out, right_out);
}

} // verus!
