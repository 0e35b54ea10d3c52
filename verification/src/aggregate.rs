//! The aggregation engine: sort, drop what is covered already, merge
//! siblings into their parent until none are left.

use vstd::prelude::*;
use crate::block::{Block, lemma_span, lemma_nested_or_apart, lemma_contains_is_inclusion, lemma_siblings_join};
use crate::cover::{
    absorbed, all_valid, covered, covered_upto, same_cover, precedes, ordered, separated,
    neighbours_apart,
    is_aggregate, lemma_cover_step, lemma_cover_push, lemma_covering_block, lemma_no_siblings,
};
use crate::prefix::{Prefix, blocks};
use crate::sort::sort;

verus! {

/// Lists with the same elements hold valid blocks alike and cover alike.
pub proof fn lemma_permuted(w: nat, s: Seq<Prefix>, t: Seq<Prefix>)
    requires
        s.to_multiset() == t.to_multiset(),
    ensures
        all_valid(w, blocks(s)) ==> all_valid(w, blocks(t)),
        same_cover(w, blocks(s), blocks(t)),
{
    s.to_multiset_ensures();
    t.to_multiset_ensures();
    assert forall|p: Prefix| s.contains(p) == t.contains(p) by {
        assert(s.contains(p) == (s.to_multiset().count(p) > 0));
        assert(t.contains(p) == (t.to_multiset().count(p) > 0));
    }
    if all_valid(w, blocks(s)) {
        assert forall|i: int| 0 <= i < blocks(t).len() implies (#[trigger] blocks(t)[i]).valid(w) by {
            assert(t.contains(t[i]));
            let k = choose|k: int| 0 <= k < s.len() && s[k] == t[i];
            assert(blocks(s)[k].valid(w));
        }
    }
    assert forall|x: int| covered(w, blocks(s), x) == covered(w, blocks(t), x) by {
        if covered(w, blocks(s), x) {
            let i = lemma_covering_block(w, blocks(s), x);
            assert(s.contains(s[i]));
            let k = choose|k: int| 0 <= k < t.len() && t[k] == s[i];
            assert(blocks(t)[k].has(w, x));
        }
        if covered(w, blocks(t), x) {
            let i = lemma_covering_block(w, blocks(t), x);
            assert(t.contains(t[i]));
            let k = choose|k: int| 0 <= k < s.len() && s[k] == t[i];
            assert(blocks(s)[k].has(w, x));
        }
    }
}

/// The absorption pass: walks an ordered list and keeps a prefix only
/// where the last one kept does not contain it. What is left is separated
/// and covers what the list covered.
pub fn absorb(w: u8, src: &Vec<Prefix>) -> (out: Vec<Prefix>)
    requires
        w <= 128,
        all_valid(w as nat, blocks(src@)),
        ordered(blocks(src@)),
    ensures
        blocks(out@) == absorbed(w as nat, blocks(src@)),
        all_valid(w as nat, blocks(out@)),
        separated(w as nat, blocks(out@)),
        same_cover(w as nat, blocks(out@), blocks(src@)),
{
    let mut out: Vec<Prefix> = Vec::new();
    let mut i: usize = 0;
    proof {
        assert(blocks(src@).take(0) =~= Seq::<Block>::empty());
        assert(blocks(out@) =~= absorbed(w as nat, blocks(src@).take(0)));
    }
    while i < src.len()
        invariant
            i <= src.len(),
            w <= 128,
            all_valid(w as nat, blocks(src@)),
            ordered(blocks(src@)),
            all_valid(w as nat, blocks(out@)),
            separated(w as nat, blocks(out@)),
            forall|x: int|
                covered(w as nat, blocks(out@), x) == covered_upto(w as nat, blocks(src@), i as int, x),
            blocks(out@) == absorbed(w as nat, blocks(src@).take(i as int)),
            out.len() > 0 ==> forall|j: int|
                i <= j < src.len() ==> precedes(
                    blocks(out@)[out.len() - 1],
                    #[trigger] blocks(src@)[j],
                ),
        decreases src.len() - i,
    {
        let c = src[i];
        let n = out.len();
        let ghost before = out@;
        assert(blocks(src@)[i as int] == c@);
        assert(c@.valid(w as nat));
        if n > 0 {
            assert(blocks(out@)[n - 1].valid(w as nat));
        }
        proof {
            let upto = blocks(src@).take(i + 1);
            assert(upto.drop_last() =~= blocks(src@).take(i as int));
            assert(upto.last() == c@);
        }
        if n > 0 && out[n - 1].contains(w, &c) {
            proof {
                let top = out[n - 1]@;
                lemma_contains_is_inclusion(w as nat, top, c@);
                assert forall|x: int|
                    covered(w as nat, blocks(out@), x) == covered_upto(
                        w as nat,
                        blocks(src@),
                        i + 1,
                        x,
                    ) by {
                    lemma_cover_step(w as nat, blocks(src@), i as int, x);
                    if c@.has(w as nat, x) {
                        assert(blocks(out@)[n - 1].has(w as nat, x));
                    }
                }
            }
        } else {
            out.push(c);
            proof {
                assert(blocks(out@) =~= blocks(before).push(c@));
                assert(src@[i as int] == c);
                assert forall|x: int|
                    covered(w as nat, blocks(out@), x) == covered_upto(
                        w as nat,
                        blocks(src@),
                        i + 1,
                        x,
                    ) by {
                    lemma_cover_step(w as nat, blocks(src@), i as int, x);
                    lemma_cover_push(w as nat, blocks(before), c@, x);
                }
                if n > 0 {
                    let top = before[n - 1]@;
                    assert(top == blocks(before)[n - 1]);
                    assert(precedes(top, blocks(src@)[i as int]));
                    lemma_contains_is_inclusion(w as nat, top, c@);
                    lemma_span(w as nat, 0, top.len);
                    lemma_span(w as nat, 0, c@.len);
                    if top.len <= c@.len {
                        lemma_nested_or_apart(w as nat, top, c@);
                    } else {
                        lemma_nested_or_apart(w as nat, c@, top);
                    }
                    assert(top.end(w as nat) <= c@.addr);
                    assert forall|a: int, b: int| 0 <= a < b < blocks(out@).len() implies (
                    #[trigger] blocks(out@)[a]).end(w as nat) <= (#[trigger] blocks(out@)[b]).addr by {
                        if b == n {
                            if a < n - 1 {
                                assert(blocks(before)[a].end(w as nat) <= blocks(before)[n - 1].addr);
                            }
                        } else {
                            assert(blocks(before)[a].end(w as nat) <= blocks(before)[b].addr);
                        }
                    }
                }
                assert forall|j: int| i + 1 <= j < src.len() implies precedes(
                    blocks(out@)[out.len() - 1],
                    #[trigger] blocks(src@)[j],
                ) by {
                    assert(precedes(blocks(src@)[i as int], blocks(src@)[j]));
                }
            }
        }
        i += 1;
    }
    proof {
        assert(blocks(src@).take(src.len() as int) =~= blocks(src@));
    }
    out
}

/// The merge pass: pushes each prefix of a separated list onto a stack and,
/// while the two on top are siblings, puts their parent in their place.
pub fn merge(w: u8, src: &Vec<Prefix>) -> (out: Vec<Prefix>)
    requires
        w <= 128,
        all_valid(w as nat, blocks(src@)),
        separated(w as nat, blocks(src@)),
    ensures
        is_aggregate(w as nat, blocks(out@), blocks(src@)),
{
    let mut st: Vec<Prefix> = Vec::new();
    let mut i: usize = 0;
    while i < src.len()
        invariant
            i <= src.len(),
            w <= 128,
            all_valid(w as nat, blocks(src@)),
            separated(w as nat, blocks(src@)),
            all_valid(w as nat, blocks(st@)),
            separated(w as nat, blocks(st@)),
            neighbours_apart(w as nat, blocks(st@), st.len() as int),
            forall|x: int|
                covered(w as nat, blocks(st@), x) == covered_upto(w as nat, blocks(src@), i as int, x),
            st.len() > 0 && i < src.len() ==> blocks(st@)[st.len() - 1].end(w as nat) <= blocks(
                src@,
            )[i as int].addr,
        decreases src.len() - i,
    {
        let c = src[i];
        let ghost before = st@;
        st.push(c);
        proof {
            assert(blocks(src@)[i as int] == c@);
            assert(blocks(st@) =~= blocks(before).push(c@));
            lemma_span(w as nat, 0, c@.len);
            assert forall|x: int|
                covered(w as nat, blocks(st@), x) == covered_upto(w as nat, blocks(src@), i + 1, x) by {
                lemma_cover_step(w as nat, blocks(src@), i as int, x);
                lemma_cover_push(w as nat, blocks(before), c@, x);
            }
            assert forall|a: int, b: int| 0 <= a < b < blocks(st@).len() implies (#[trigger] blocks(
                st@,
            )[a]).end(w as nat) <= (#[trigger] blocks(st@)[b]).addr by {
                let n = before.len() as int;
                if b == n {
                    if a < n - 1 {
                        assert(blocks(before)[a].end(w as nat) <= blocks(before)[n - 1].addr);
                        lemma_span(w as nat, 0, blocks(before)[n - 1].len);
                    }
                } else {
                    assert(blocks(before)[a].end(w as nat) <= blocks(before)[b].addr);
                }
            }
            assert forall|a: int, b: int|
                0 <= a && b == a + 1 && b < st.len() - 1 && b < blocks(st@).len() implies !(
            #[trigger] blocks(st@)[a]).sibling_of(w as nat, #[trigger] blocks(st@)[b]) by {
                assert(!blocks(before)[a].sibling_of(w as nat, blocks(before)[b]));
            }
            if i + 1 < src.len() {
                assert(blocks(src@)[i as int].end(w as nat) <= blocks(src@)[i + 1].addr);
            }
            if st.len() >= 2 {
                assert(blocks(st@)[st.len() - 2].valid(w as nat));
            }
        }
        i += 1;
        while st.len() >= 2 && st[st.len() - 2].are_siblings(w, &st[st.len() - 1])
            invariant
                i <= src.len(),
                w <= 128,
                st.len() >= 1,
                all_valid(w as nat, blocks(src@)),
                all_valid(w as nat, blocks(st@)),
                st@[st.len() - 1].valid(w as nat),
                st.len() >= 2 ==> st@[st.len() - 2].valid(w as nat),
                separated(w as nat, blocks(st@)),
                neighbours_apart(w as nat, blocks(st@), st.len() - 1),
                forall|x: int|
                    covered(w as nat, blocks(st@), x) == covered_upto(
                        w as nat,
                        blocks(src@),
                        i as int,
                        x,
                    ),
                i < src.len() ==> blocks(st@)[st.len() - 1].end(w as nat) <= blocks(src@)[i as int].addr,
            decreases st.len(),
        {
            let ghost full = st@;
            let n = st.len();
            let q = st[n - 1];
            let p = st[n - 2];
            assert(blocks(st@)[n - 1] == q@ && blocks(st@)[n - 2] == p@);
            st.pop();
            st.pop();
            let ghost rest = st@;
            let r = p.parent(w);
            st.push(r);
            proof {
                let wn = w as nat;
                assert(rest =~= full.subrange(0, n - 2));
                assert(blocks(full) =~= blocks(rest).push(p@).push(q@));
                assert(blocks(st@) =~= blocks(rest).push(r@));
                assert(p@.end(wn) <= q@.addr);
                lemma_span(wn, 0, p@.len);
                lemma_siblings_join(wn, p@, q@);
                assert forall|x: int|
                    covered(wn, blocks(st@), x) == covered_upto(wn, blocks(src@), i as int, x) by {
                    lemma_cover_push(wn, blocks(rest), r@, x);
                    lemma_cover_push(wn, blocks(rest), p@, x);
                    lemma_cover_push(wn, blocks(rest).push(p@), q@, x);
                }
                assert forall|a: int, b: int| 0 <= a < b < blocks(st@).len() implies (
                #[trigger] blocks(st@)[a]).end(wn) <= (#[trigger] blocks(st@)[b]).addr by {
                    if b == n - 2 {
                        assert(blocks(full)[a].end(wn) <= blocks(full)[n - 2].addr);
                    } else {
                        assert(blocks(full)[a].end(wn) <= blocks(full)[b].addr);
                    }
                }
                assert forall|a: int, b: int|
                    0 <= a && b == a + 1 && b < st.len() - 1 && b < blocks(st@).len() implies !(
                #[trigger] blocks(st@)[a]).sibling_of(wn, #[trigger] blocks(st@)[b]) by {
                    assert(!blocks(full)[a].sibling_of(wn, blocks(full)[b]));
                }
                assert forall|k: int| 0 <= k < blocks(st@).len() implies (#[trigger] blocks(
                    st@,
                )[k]).valid(wn) by {
                    if k < n - 2 {
                        assert(blocks(full)[k].valid(wn));
                    }
                }
                if st.len() >= 2 {
                    assert(blocks(st@)[st.len() - 2].valid(wn));
                }
            }
        }
        proof {
            let wn = w as nat;
            let s = blocks(st@);
            assert forall|a: int, b: int|
                0 <= a && b == a + 1 && b < st.len() && b < s.len() implies !(#[trigger] s[a]).sibling_of(
                wn,
                #[trigger] s[b],
            ) by {
                if b == st.len() - 1 {
                    assert(s[a] == st@[st.len() - 2]@);
                    assert(s[b] == st@[st.len() - 1]@);
                }
            }
        }
    }
    proof {
        lemma_no_siblings(w as nat, blocks(st@));
        assert(same_cover(w as nat, blocks(st@), blocks(src@)));
    }
    st
}

/// Aggregates a list of prefixes of one address family: the result is the
/// ascending list of non-overlapping, unmergeable prefixes that covers
/// exactly the addresses which the given prefixes cover.
pub fn aggregate(w: u8, nets: Vec<Prefix>) -> (out: Vec<Prefix>)
    requires
        w <= 128,
        all_valid(w as nat, blocks(nets@)),
    ensures
        is_aggregate(w as nat, blocks(out@), blocks(nets@)),
{
    let work = sort(nets);
    proof {
        lemma_permuted(w as nat, nets@, work@);
    }
    let kept = absorb(w, &work);
    let out = merge(w, &kept);
    out
}

} // verus!
