//! Prefixes as machine values: an address held in 128 bits (an IPv4
//! address zero-extended) and a prefix length, with the prefix arithmetic
//! of an address space of `w` bits.

use vstd::prelude::*;
use vstd::arithmetic::power2::{pow2, lemma_pow2_pos, lemma_pow2_adds, lemma2_to64};
use vstd::arithmetic::div_mod::lemma_fundamental_div_mod_converse;
use vstd::bits::lemma_u128_shr_is_div;
use crate::block::{Block, span, lemma_span, lemma_network, lemma_parent};

verus! {

/// A network address and a prefix length.
#[derive(Clone, Copy, Debug, PartialEq, Eq, Structural)]
pub struct Prefix {
    pub addr: u128,
    pub len: u8,
}

impl View for Prefix {
    type V = Block;

    open spec fn view(&self) -> Block {
        Block { addr: self.addr as int, len: self.len as nat }
    }
}

/// The blocks that a list of prefixes stands for, in the same order.
pub open spec fn blocks(v: Seq<Prefix>) -> Seq<Block> {
    Seq::new(v.len(), |i: int| v[i]@)
}

/// 2^128 is one more than the largest `u128`.
pub proof fn lemma_pow2_128()
    ensures
        pow2(128) == u128::MAX + 1,
        pow2(32) == u32::MAX + 1,
{
    lemma2_to64();
    lemma_pow2_adds(64, 64);
    assert(0x1_0000_0000_0000_0000int * 0x1_0000_0000_0000_0000int
        == 0x1_0000_0000_0000_0000_0000_0000_0000_0000int) by (nonlinear_arith);
}

/// Everything below 2^h, for `h` up to 128, fits in a `u128`.
pub proof fn lemma_pow2_fits(h: nat)
    requires
        h <= 128,
    ensures
        0 < pow2(h) <= u128::MAX + 1,
        h < 128 ==> pow2(h) <= u128::MAX,
{
    lemma_pow2_128();
    lemma_pow2_pos(h);
    lemma_pow2_pos((128 - h) as nat);
    lemma_pow2_adds(h, (128 - h) as nat);
    let a = pow2(h) as int;
    let b = pow2((128 - h) as nat) as int;
    assert(a <= a * b) by (nonlinear_arith)
        requires
            a > 0,
            b >= 1,
    ;
    if h < 128 {
        vstd::arithmetic::power2::lemma_pow2_strictly_increases(h, 128);
    }
}

/// The mask of the `h` lowest bits: 2^h - 1.
pub fn host_mask(h: u8) -> (m: u128)
    requires
        h <= 128,
    ensures
        m == pow2(h as nat) - 1,
{
    if h == 0 {
        proof {
            lemma2_to64();
        }
        0
    } else {
        let k: u128 = (128 - h) as u128;
        proof {
            let d = pow2(k as nat) as int;
            let q = pow2(h as nat) as int;
            lemma_pow2_128();
            lemma_pow2_pos(k as nat);
            lemma_pow2_pos(h as nat);
            lemma_pow2_adds(h as nat, k as nat);
            lemma_u128_shr_is_div(u128::MAX, k);
            assert(u128::MAX as int == (q - 1) * d + (d - 1)) by (nonlinear_arith)
                requires
                    u128::MAX + 1 == q * d,
            ;
            lemma_fundamental_div_mod_converse(u128::MAX as int, d, q - 1, d - 1);
        }
        u128::MAX >> k
    }
}

/// The address with every bit beyond the first `len` of its `w` cleared.
pub fn network(w: u8, addr: u128, len: u8) -> (n: u128)
    requires
        len <= w <= 128,
        addr < pow2(w as nat),
    ensures
        n == crate::block::network(w as nat, addr as int, len as nat),
{
    let m = host_mask(w - len);
    proof {
        lemma_pow2_128();
        lemma_span(w as nat, 0, len as nat);
    }
    if m == u128::MAX {
        proof {
            lemma_pow2_fits((w - len) as nat);
            assert(w - len == 128);
            vstd::arithmetic::div_mod::lemma_small_mod(addr as nat, pow2(128));
        }
        0
    } else {
        proof {
            vstd::arithmetic::div_mod::lemma_mod_decreases(addr as nat, (m + 1) as nat);
        }
        addr - addr % (m + 1)
    }
}

impl Prefix {
    /// The prefix is in canonical form in an address space of `w` bits.
    pub open spec fn valid(&self, w: nat) -> bool {
        self@.valid(w)
    }

    /// Whether `inner` is `self` or a part of it: at least as long, and the
    /// same on the leading `self.len` bits.
    pub fn contains(&self, w: u8, inner: &Prefix) -> (r: bool)
        requires
            w <= 128,
            self.valid(w as nat),
            inner.valid(w as nat),
        ensures
            r == self@.contains(w as nat, inner@),
    {
        proof {
            lemma_pow2_fits(w as nat);
            lemma_span(w as nat, 0, inner.len as nat);
        }
        inner.len >= self.len && network(w, inner.addr, self.len) == self.addr
    }

    /// Whether the two prefixes are the two halves of one parent: equal
    /// lengths above zero, and addresses that differ in the last prefix bit
    /// alone.
    pub fn are_siblings(&self, w: u8, other: &Prefix) -> (r: bool)
        requires
            w <= 128,
            self.valid(w as nat),
            other.valid(w as nat),
        ensures
            r == self@.sibling_of(w as nat, other@),
    {
        proof {
            lemma_pow2_fits(w as nat);
            lemma_span(w as nat, 0, self.len as nat);
            lemma_span(w as nat, 0, other.len as nat);
        }
        self.len == other.len && self.len > 0 && self.addr != other.addr && network(
            w,
            self.addr,
            self.len - 1,
        ) == network(w, other.addr, self.len - 1)
    }

    /// The prefix one bit shorter that holds this one.
    pub fn parent(&self, w: u8) -> (r: Prefix)
        requires
            w <= 128,
            self.valid(w as nat),
            self.len > 0,
        ensures
            r@ == self@.parent(w as nat),
            r.valid(w as nat),
    {
        proof {
            lemma_pow2_fits(w as nat);
            lemma_span(w as nat, 0, self.len as nat);
            lemma_parent(w as nat, self@);
        }
        Prefix { addr: network(w, self.addr, self.len - 1), len: self.len - 1 }
    }
}

} // verus!
