//! Lists of blocks: which addresses a list covers, and what makes a list
//! the aggregate of another.

use vstd::prelude::*;
use crate::block::{Block, lemma_span, lemma_siblings_join};

verus! {

/// Every block of the list is canonical and inside the address space.
pub open spec fn all_valid(w: nat, s: Seq<Block>) -> bool {
    forall|i: int| 0 <= i < s.len() ==> (#[trigger] s[i]).valid(w)
}

/// Some block among the first `n` of the list holds the address `x`.
pub open spec fn covered_upto(w: nat, s: Seq<Block>, n: int, x: int) -> bool {
    exists|i: int| 0 <= i < n && i < s.len() && (#[trigger] s[i]).has(w, x)
}

/// Some block of the list holds the address `x`.
pub open spec fn covered(w: nat, s: Seq<Block>, x: int) -> bool {
    covered_upto(w, s, s.len() as int, x)
}

/// The two lists cover the same addresses.
pub open spec fn same_cover(w: nat, s: Seq<Block>, t: Seq<Block>) -> bool {
    forall|x: int| covered(w, s, x) == covered(w, t, x)
}

/// `a` comes no later than `b` by address, then by prefix length.
pub open spec fn precedes(a: Block, b: Block) -> bool {
    a.addr < b.addr || (a.addr == b.addr && a.len <= b.len)
}

/// The list ascends by address, and by prefix length where addresses tie.
pub open spec fn ordered(s: Seq<Block>) -> bool {
    forall|i: int, j: int| 0 <= i < j < s.len() ==> precedes(#[trigger] s[i], #[trigger] s[j])
}

/// Each block ends before the next begins: the list ascends and no two of
/// its blocks overlap.
pub open spec fn separated(w: nat, s: Seq<Block>) -> bool {
    forall|i: int, j: int|
        0 <= i < j < s.len() ==> (#[trigger] s[i]).end(w) <= (#[trigger] s[j]).addr
}

/// What is left of an ordered list when every block that the last block
/// left before it contains is dropped.
pub open spec fn absorbed(w: nat, s: Seq<Block>) -> Seq<Block>
    decreases s.len(),
{
    if s.len() == 0 {
        Seq::empty()
    } else {
        let before = absorbed(w, s.drop_last());
        if before.len() > 0 && before.last().contains(w, s.last()) {
            before
        } else {
            before.push(s.last())
        }
    }
}

/// No two neighbours among the first `n` blocks are siblings.
pub open spec fn neighbours_apart(w: nat, s: Seq<Block>, n: int) -> bool {
    forall|i: int, j: int|
        0 <= i && j == i + 1 && j < n && j < s.len() ==> !(#[trigger] s[i]).sibling_of(
            w,
            #[trigger] s[j],
        )
}

/// No two blocks of the list are siblings.
pub open spec fn no_siblings(w: nat, s: Seq<Block>) -> bool {
    forall|i: int, j: int|
        0 <= i < s.len() && 0 <= j < s.len() ==> !(#[trigger] s[i]).sibling_of(w, #[trigger] s[j])
}

/// The list is ascending, free of overlap and free of siblings: nothing in
/// it can be left out or merged.
pub open spec fn is_minimal(w: nat, s: Seq<Block>) -> bool {
    &&& all_valid(w, s)
    &&& separated(w, s)
    &&& no_siblings(w, s)
}

/// `out` is the aggregate of `inp`: minimal, and covering what `inp` covers.
pub open spec fn is_aggregate(w: nat, out: Seq<Block>, inp: Seq<Block>) -> bool {
    &&& is_minimal(w, out)
    &&& same_cover(w, out, inp)
}

/// A block of the list that holds a covered address.
pub proof fn lemma_covering_block(w: nat, s: Seq<Block>, x: int) -> (i: int)
    requires
        covered(w, s, x),
    ensures
        0 <= i < s.len(),
        s[i].has(w, x),
{
    choose|i: int| 0 <= i < s.len() && i < s.len() && (#[trigger] s[i]).has(w, x)
}

/// What one more block adds to the cover.
pub proof fn lemma_cover_step(w: nat, s: Seq<Block>, n: int, x: int)
    requires
        0 <= n < s.len(),
    ensures
        covered_upto(w, s, n + 1, x) == (covered_upto(w, s, n, x) || s[n].has(w, x)),
{
    if covered_upto(w, s, n + 1, x) {
        let i = choose|i: int| 0 <= i < n + 1 && i < s.len() && (#[trigger] s[i]).has(w, x);
        if i < n {
            assert(covered_upto(w, s, n, x));
        }
    }
    if covered_upto(w, s, n, x) {
        let i = choose|i: int| 0 <= i < n && i < s.len() && (#[trigger] s[i]).has(w, x);
        assert(s[i].has(w, x));
    }
    if s[n].has(w, x) {
        assert(covered_upto(w, s, n + 1, x));
    }
}

/// What a block pushed onto a list adds to the cover.
pub proof fn lemma_cover_push(w: nat, s: Seq<Block>, b: Block, x: int)
    ensures
        covered(w, s.push(b), x) == (covered(w, s, x) || b.has(w, x)),
{
    let t = s.push(b);
    lemma_cover_step(w, t, s.len() as int, x);
    if covered_upto(w, t, s.len() as int, x) {
        let i = choose|i: int| 0 <= i < s.len() && i < t.len() && (#[trigger] t[i]).has(w, x);
        assert(s[i].has(w, x));
    }
    if covered(w, s, x) {
        let i = lemma_covering_block(w, s, x);
        assert(t[i].has(w, x));
    }
}

/// In a separated list only neighbours can be siblings.
pub proof fn lemma_no_siblings(w: nat, s: Seq<Block>)
    requires
        all_valid(w, s),
        separated(w, s),
        neighbours_apart(w, s, s.len() as int),
    ensures
        no_siblings(w, s),
{
    assert forall|i: int, j: int| 0 <= i < s.len() && 0 <= j < s.len() implies !(#[trigger] s[i]).sibling_of(
        w,
        #[trigger] s[j],
    ) by {
        if s[i].sibling_of(w, s[j]) {
            lemma_span(w, 0, s[i].len);
            lemma_span(w, 0, s[j].len);
            if i < j {
                lemma_siblings_join(w, s[i], s[j]);
                if i + 1 < j {
                    assert(s[i].end(w) <= s[i + 1].addr);
                    assert(s[i + 1].end(w) <= s[j].addr);
                    lemma_span(w, 0, s[i + 1].len);
                }
            } else if j < i {
                lemma_siblings_join(w, s[j], s[i]);
                if j + 1 < i {
                    assert(s[j].end(w) <= s[j + 1].addr);
                    assert(s[j + 1].end(w) <= s[i].addr);
                    lemma_span(w, 0, s[j + 1].len);
                }
            }
        }
    }
}

} // verus!
