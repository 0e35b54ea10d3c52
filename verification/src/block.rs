//! The mathematical model of a CIDR block: an aligned, power-of-two sized
//! range of addresses in a space of `w` bits.

use vstd::prelude::*;
use vstd::arithmetic::power2::{pow2, lemma_pow2_pos, lemma_pow2_adds, lemma_pow2_strictly_increases};
use vstd::arithmetic::div_mod::{lemma_fundamental_div_mod, lemma_fundamental_div_mod_converse};

verus! {

/// A block of addresses: the `len` leading bits of `addr` are fixed, the
/// rest run through all values.
pub struct Block {
    pub addr: int,
    pub len: nat,
}

/// Number of addresses in a block of prefix length `len` in a space of `w` bits.
pub open spec fn span(w: nat, len: nat) -> int {
    pow2((w - len) as nat) as int
}

/// The address `addr` with every bit beyond the first `len` cleared.
pub open spec fn network(w: nat, addr: int, len: nat) -> int {
    addr - addr % span(w, len)
}

impl Block {
    pub open spec fn size(self, w: nat) -> int {
        span(w, self.len)
    }

    /// One past the last address of the block.
    pub open spec fn end(self, w: nat) -> int {
        self.addr + self.size(w)
    }

    /// The block is in canonical form and lies inside the address space.
    pub open spec fn valid(self, w: nat) -> bool {
        &&& self.len <= w
        &&& 0 <= self.addr
        &&& self.end(w) <= pow2(w)
        &&& self.addr % self.size(w) == 0
    }

    /// The address `x` lies in the block.
    pub open spec fn has(self, w: nat, x: int) -> bool {
        self.addr <= x < self.end(w)
    }

    /// `inner` is at least as long as `self` and agrees with it on the
    /// leading `self.len` bits.
    pub open spec fn contains(self, w: nat, inner: Block) -> bool {
        inner.len >= self.len && network(w, inner.addr, self.len) == self.addr
    }

    /// The block one bit shorter that holds `self`.
    pub open spec fn parent(self, w: nat) -> Block
        recommends
            self.len > 0,
    {
        Block { addr: network(w, self.addr, (self.len - 1) as nat), len: (self.len - 1) as nat }
    }

    /// The two blocks are the two distinct halves of one parent.
    pub open spec fn sibling_of(self, w: nat, other: Block) -> bool {
        &&& self.len == other.len
        &&& self.len > 0
        &&& self.addr != other.addr
        &&& network(w, self.addr, (self.len - 1) as nat) == network(
            w,
            other.addr,
            (other.len - 1) as nat,
        )
    }
}

/// A span is positive, and a shorter prefix spans a whole multiple of a longer one.
pub proof fn lemma_span(w: nat, short: nat, long: nat)
    requires
        short <= long <= w,
    ensures
        span(w, long) > 0,
        span(w, short) == span(w, long) * pow2((long - short) as nat),
        pow2((long - short) as nat) >= 1,
        short < long ==> span(w, long) < span(w, short),
{
    lemma_pow2_pos((w - long) as nat);
    lemma_pow2_pos((long - short) as nat);
    lemma_pow2_adds((w - long) as nat, (long - short) as nat);
    if short < long {
        lemma_pow2_strictly_increases((w - long) as nat, (w - short) as nat);
    }
}

/// Of two aligned ranges whose sizes divide one another, the smaller lies
/// wholly inside or wholly outside the larger.
pub proof fn lemma_aligned_ranges(a: int, s: int, b: int, t: int, m: int)
    requires
        t > 0,
        m >= 1,
        s == t * m,
        a % s == 0,
        b % t == 0,
    ensures
        b + t <= a || a + s <= b || (a <= b && b + t <= a + s),
{
    let j = a / s;
    let k = b / t;
    assert(s > 0) by (nonlinear_arith)
        requires
            t > 0,
            m >= 1,
            s == t * m,
    ;
    lemma_fundamental_div_mod(a, s);
    lemma_fundamental_div_mod(b, t);
    assert(a == t * (j * m)) by (nonlinear_arith)
        requires
            a == s * j,
            s == t * m,
    ;
    let lo = j * m;
    let hi = lo + m;
    assert(a + s == t * hi) by (nonlinear_arith)
        requires
            a == t * lo,
            s == t * m,
            hi == lo + m,
    ;
    if k < lo {
        assert(t * (k + 1) <= t * lo) by (nonlinear_arith)
            requires
                k + 1 <= lo,
                t > 0,
        ;
        assert(t * (k + 1) == t * k + t) by (nonlinear_arith);
    } else if k >= hi {
        assert(t * hi <= t * k) by (nonlinear_arith)
            requires
                hi <= k,
                t > 0,
        ;
    } else {
        assert(t * lo <= t * k) by (nonlinear_arith)
            requires
                lo <= k,
                t > 0,
        ;
        assert(t * (k + 1) <= t * hi) by (nonlinear_arith)
            requires
                k + 1 <= hi,
                t > 0,
        ;
        assert(t * (k + 1) == t * k + t) by (nonlinear_arith);
    }
}

/// Two valid blocks are nested or disjoint: the longer one lies wholly
/// inside or wholly outside the shorter one.
pub proof fn lemma_nested_or_apart(w: nat, a: Block, b: Block)
    requires
        a.valid(w),
        b.valid(w),
        a.len <= b.len,
    ensures
        b.end(w) <= a.addr || a.end(w) <= b.addr || (a.addr <= b.addr && b.end(w) <= a.end(w)),
{
    lemma_span(w, a.len, b.len);
    lemma_aligned_ranges(a.addr, a.size(w), b.addr, b.size(w), pow2((b.len - a.len) as nat) as int);
}

/// The only multiple of `d` within `d` below `x` is `x` rounded down.
pub proof fn lemma_round_down_unique(x: int, d: int, n: int)
    requires
        d > 0,
        n % d == 0,
        n <= x < n + d,
    ensures
        n == x - x % d,
{
    lemma_fundamental_div_mod(n, d);
    let q = n / d;
    assert(q * d == d * q) by (nonlinear_arith);
    lemma_fundamental_div_mod_converse(x, d, q, x - n);
}

/// What rounding an address down to a prefix length gives.
pub proof fn lemma_network(w: nat, addr: int, len: nat)
    requires
        len <= w,
        0 <= addr < pow2(w),
    ensures
        0 <= network(w, addr, len) <= addr < network(w, addr, len) + span(w, len),
        network(w, addr, len) % span(w, len) == 0,
        network(w, addr, len) + span(w, len) <= pow2(w),
        (Block { addr: network(w, addr, len), len }).valid(w),
{
    let d = span(w, len);
    let n = network(w, addr, len);
    let q = addr / d;
    let m = pow2(len) as int;
    lemma_span(w, 0, len);
    lemma_fundamental_div_mod(addr, d);
    assert(0 <= addr % d < d);
    assert(n == d * q);
    assert(n % d == 0) by {
        assert(q * d == d * q) by (nonlinear_arith);
        lemma_fundamental_div_mod_converse(n, d, q, 0);
    }
    assert(pow2(w) == d * m);
    assert(q < m) by (nonlinear_arith)
        requires
            d * q <= addr,
            addr < d * m,
            d > 0,
    ;
    assert(d * q + d <= d * m) by (nonlinear_arith)
        requires
            q + 1 <= m,
            d > 0,
    ;
    assert(q >= 0) by (nonlinear_arith)
        requires
            d * q + d > addr,
            addr >= 0,
            d > 0,
    ;
    assert(d * q >= 0) by (nonlinear_arith)
        requires
            q >= 0,
            d > 0,
    ;
}

/// Between valid blocks, agreeing on the leading bits is the same as
/// lying inside.
pub proof fn lemma_contains_is_inclusion(w: nat, outer: Block, inner: Block)
    requires
        outer.valid(w),
        inner.valid(w),
    ensures
        outer.contains(w, inner) <==> (outer.addr <= inner.addr && inner.end(w) <= outer.end(w)),
{
    lemma_span(w, 0, inner.len);
    lemma_span(w, 0, outer.len);
    if inner.len >= outer.len {
        lemma_span(w, outer.len, inner.len);
        lemma_network(w, inner.addr, outer.len);
        let n = Block { addr: network(w, inner.addr, outer.len), len: outer.len };
        lemma_nested_or_apart(w, n, inner);
        if outer.addr <= inner.addr && inner.end(w) <= outer.end(w) {
            lemma_round_down_unique(inner.addr, outer.size(w), outer.addr);
        }
    } else {
        lemma_span(w, inner.len, outer.len);
    }
}

/// The parent of a valid block is valid, twice its size, and starts at the
/// block or one block below it.
pub proof fn lemma_parent(w: nat, b: Block)
    requires
        b.valid(w),
        b.len > 0,
    ensures
        b.parent(w).valid(w),
        b.parent(w).size(w) == 2 * b.size(w),
        b.parent(w).addr == b.addr || b.parent(w).addr + b.size(w) == b.addr,
{
    let p = b.parent(w);
    lemma_span(w, 0, b.len);
    lemma_span(w, p.len, b.len);
    assert(pow2((b.len - p.len) as nat) == 2) by {
        assert(b.len - p.len == 1);
        vstd::arithmetic::power2::lemma2_to64();
    }
    let k = pow2((b.len - p.len) as nat) as int;
    assert(b.size(w) * k == 2 * b.size(w)) by (nonlinear_arith)
        requires
            k == 2,
    ;
    lemma_network(w, b.addr, p.len);
    lemma_nested_or_apart(w, p, b);
    let s = b.size(w);
    lemma_half_aligned(p.addr, s);
    lemma_aligned_ranges(p.addr, s, b.addr, s, 1);
}

/// A multiple of `2 * s` moved up by `s` is a multiple of `s`.
pub proof fn lemma_half_aligned(a: int, s: int)
    requires
        s > 0,
        a % (2 * s) == 0,
    ensures
        a % s == 0,
        (a + s) % s == 0,
        (a + s) % (2 * s) == s,
{
    lemma_fundamental_div_mod(a, 2 * s);
    let q = a / (2 * s);
    assert(a == (2 * q) * s) by (nonlinear_arith)
        requires
            a == (2 * s) * q,
    ;
    lemma_fundamental_div_mod_converse(a, s, 2 * q, 0);
    assert(a + s == (2 * q + 1) * s + 0) by (nonlinear_arith)
        requires
            a == (2 * q) * s,
    ;
    lemma_fundamental_div_mod_converse(a + s, s, 2 * q + 1, 0);
    assert(a + s == q * (2 * s) + s) by (nonlinear_arith)
        requires
            a == (2 * s) * q,
    ;
    lemma_fundamental_div_mod_converse(a + s, 2 * s, q, s);
}

/// Valid blocks over the same range are one block.
pub proof fn lemma_same_range(w: nat, a: Block, b: Block)
    requires
        a.valid(w),
        b.valid(w),
        a.addr == b.addr,
        a.end(w) == b.end(w),
    ensures
        a == b,
{
    if a.len < b.len {
        lemma_span(w, a.len, b.len);
    } else if b.len < a.len {
        lemma_span(w, b.len, a.len);
    }
}

/// Siblings lie side by side, and their common parent covers the two of
/// them and nothing else.
pub proof fn lemma_siblings_join(w: nat, a: Block, b: Block)
    requires
        a.valid(w),
        b.valid(w),
        a.sibling_of(w, b),
        a.addr < b.addr,
    ensures
        a.end(w) == b.addr,
        a.parent(w) == b.parent(w),
        a.parent(w).valid(w),
        a.parent(w).addr == a.addr,
        a.parent(w).end(w) == b.end(w),
{
    lemma_parent(w, a);
    lemma_parent(w, b);
}

/// A valid block that is not a single address splits into two valid
/// siblings whose parent it is.
pub proof fn lemma_halves(w: nat, c: Block)
    requires
        c.valid(w),
        c.len < w,
    ensures
        ({
            let lo = Block { addr: c.addr, len: c.len + 1 };
            let hi = Block { addr: c.addr + span(w, c.len + 1), len: c.len + 1 };
            &&& lo.valid(w)
            &&& hi.valid(w)
            &&& lo.end(w) == hi.addr
            &&& hi.end(w) == c.end(w)
            &&& lo.sibling_of(w, hi)
            &&& lo.parent(w) == c
            &&& hi.parent(w) == c
        }),
{
    let lo = Block { addr: c.addr, len: c.len + 1 };
    let hi = Block { addr: c.addr + span(w, c.len + 1), len: c.len + 1 };
    let s = span(w, c.len + 1);
    lemma_span(w, c.len, c.len + 1);
    assert(pow2(((c.len + 1) - c.len) as nat) == 2) by {
        vstd::arithmetic::power2::lemma2_to64();
    }
    let k = pow2(((c.len + 1) - c.len) as nat) as int;
    assert(s * k == 2 * s) by (nonlinear_arith)
        requires
            k == 2,
    ;
    lemma_half_aligned(c.addr, s);
    lemma_round_down_unique(lo.addr, 2 * s, c.addr);
    lemma_round_down_unique(hi.addr, 2 * s, c.addr);
}

} // verus!
