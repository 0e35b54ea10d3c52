//! Addresses and networks of the two families as plain values.

use vstd::prelude::*;
use vstd::arithmetic::power2::pow2;
use vstd::std_specs::convert::FromSpecImpl;
use crate::block::{Block, lemma_network};
use crate::error::{NetParseError, NetParseFault};
use crate::prefix::{Prefix, lemma_pow2_128, lemma_pow2_fits};
use crate::text::{cidr_text_v4, cidr_text_v6, format_v4, format_v6};

verus! {

/// An address family.
#[derive(Clone, Copy, Debug, PartialEq, Eq, Structural)]
pub enum Family {
    V4,
    V6,
}

impl Family {
    /// Number of bits in an address of the family.
    pub open spec fn width(self) -> nat {
        match self {
            Family::V4 => 32,
            Family::V6 => 128,
        }
    }

    /// Number of bits in an address of the family.
    pub fn bits(self) -> (b: u8)
        ensures
            b == self.width(),
    {
        match self {
            Family::V4 => 32,
            Family::V6 => 128,
        }
    }
}

/// An IPv4 or IPv6 address as an unsigned number.
#[derive(Clone, Copy, Debug, PartialEq, Eq, Structural)]
pub enum IpAddress {
    V4(u32),
    V6(u128),
}

impl IpAddress {
    pub open spec fn family_of(self) -> Family {
        match self {
            IpAddress::V4(_) => Family::V4,
            IpAddress::V6(_) => Family::V6,
        }
    }

    /// The address as a number.
    pub open spec fn value(self) -> int {
        match self {
            IpAddress::V4(a) => a as int,
            IpAddress::V6(a) => a as int,
        }
    }

    /// The family of the address.
    pub fn family(&self) -> (f: Family)
        ensures
            f == self.family_of(),
    {
        match self {
            IpAddress::V4(_) => Family::V4,
            IpAddress::V6(_) => Family::V6,
        }
    }

    /// The address in 128 bits, an IPv4 address zero-extended.
    pub fn to_bits(&self) -> (b: u128)
        ensures
            b == self.value(),
            b < pow2(self.family_of().width()),
    {
        proof {
            lemma_pow2_128();
        }
        match self {
            IpAddress::V4(a) => *a as u128,
            IpAddress::V6(a) => *a,
        }
    }

    /// The address of the given family with the given number.
    pub fn from_bits(family: Family, bits: u128) -> (a: IpAddress)
        requires
            bits < pow2(family.width()),
        ensures
            a.family_of() == family,
            a.value() == bits,
    {
        proof {
            lemma_pow2_128();
        }
        match family {
            Family::V4 => IpAddress::V4(bits as u32),
            Family::V6 => IpAddress::V6(bits),
        }
    }
}

/// An address with a prefix length: a network, or an address inside one.
/// A bare address has the full length of its family.
#[derive(Clone, Copy, Debug, PartialEq, Eq, Structural)]
pub struct IpOrNet {
    pub family: Family,
    /// The address as given, zero-extended to 128 bits; bits beyond the
    /// prefix length may be set.
    pub addr: u128,
    pub len: u8,
}

impl IpOrNet {
    /// The length is within the family's width and the address within its range.
    pub open spec fn wf(&self) -> bool {
        self.len <= self.family.width() && self.addr < pow2(self.family.width())
    }

    /// The network address as a number.
    pub open spec fn network_value(&self) -> int {
        crate::block::network(self.family.width(), self.addr as int, self.len as nat)
    }

    /// The block of addresses that the network stands for.
    pub open spec fn block(&self) -> Block {
        Block { addr: self.network_value(), len: self.len as nat }
    }

    /// The network in canonical form: the network address and the length.
    pub open spec fn canonical(&self) -> Prefix {
        Prefix { addr: self.network_value() as u128, len: self.len }
    }

    /// The network in CIDR notation, the address as it was given.
    pub open spec fn text(&self) -> Seq<char> {
        match self.family {
            Family::V4 => cidr_text_v4(self.addr as int, self.len as nat),
            Family::V6 => cidr_text_v6(self.addr as int, self.len as nat),
        }
    }

    /// The network of the given address and prefix length, which must not
    /// be beyond the width of the address.
    pub fn new(addr: IpAddress, len: u8) -> (r: Result<IpOrNet, NetParseError>)
        ensures
            len <= addr.family_of().width() ==> r == Ok::<IpOrNet, NetParseError>(
                IpOrNet { family: addr.family_of(), addr: addr.value() as u128, len },
            ),
            len > addr.family_of().width() ==> r == Err::<IpOrNet, NetParseError>(
                NetParseError { kind: NetParseFault::PrefixLenOutOfRange },
            ),
            r is Ok ==> r->Ok_0.wf(),
    {
        let family = addr.family();
        if len > family.bits() {
            Err(NetParseError { kind: NetParseFault::PrefixLenOutOfRange })
        } else {
            Ok(IpOrNet { family, addr: addr.to_bits(), len })
        }
    }

    /// The single address as a network of full length.
    pub fn host(addr: IpAddress) -> (r: IpOrNet)
        ensures
            r == (IpOrNet {
                family: addr.family_of(),
                addr: addr.value() as u128,
                len: addr.family_of().width() as u8,
            }),
            r.wf(),
    {
        let family = addr.family();
        IpOrNet { family, addr: addr.to_bits(), len: family.bits() }
    }

    /// The prefix length.
    pub fn prefix_len(&self) -> (l: u8)
        ensures
            l == self.len,
    {
        self.len
    }

    pub fn is_ipv4(&self) -> (r: bool)
        ensures
            r == (self.family == Family::V4),
    {
        match self.family {
            Family::V4 => true,
            Family::V6 => false,
        }
    }

    pub fn is_ipv6(&self) -> (r: bool)
        ensures
            r == (self.family == Family::V6),
    {
        match self.family {
            Family::V4 => false,
            Family::V6 => true,
        }
    }

    /// The address as it was given.
    pub fn addr(&self) -> (a: IpAddress)
        requires
            self.wf(),
        ensures
            a.family_of() == self.family,
            a.value() == self.addr,
    {
        IpAddress::from_bits(self.family, self.addr)
    }

    /// The address with the bits beyond the prefix length cleared.
    pub fn network(&self) -> (a: IpAddress)
        requires
            self.wf(),
        ensures
            a.family_of() == self.family,
            a.value() == self.network_value(),
    {
        let p = self.prefix();
        proof {
            crate::block::lemma_span(self.family.width(), 0, self.len as nat);
        }
        IpAddress::from_bits(self.family, p.addr)
    }

    /// Whether a bit beyond the prefix length is set: the address is not
    /// the address of its network.
    pub fn has_host_bits(&self) -> (r: bool)
        requires
            self.wf(),
        ensures
            r == (self.addr != self.network_value()),
    {
        let p = self.prefix();
        self.addr != p.addr
    }

    /// The network in canonical form.
    pub fn prefix(&self) -> (p: Prefix)
        requires
            self.wf(),
        ensures
            p == self.canonical(),
            p@ == self.block(),
            p.valid(self.family.width()),
    {
        let w = self.family.bits();
        proof {
            lemma_network(w as nat, self.addr as int, self.len as nat);
            lemma_pow2_fits(w as nat);
        }
        Prefix { addr: crate::prefix::network(w, self.addr, self.len), len: self.len }
    }

    /// The network in CIDR notation: the address as it was given, a slash
    /// and the prefix length.
    pub fn to_string(&self) -> (s: String)
        requires
            self.wf(),
        ensures
            s@ == self.text(),
    {
        proof {
            lemma_pow2_128();
        }
        match self.family {
            Family::V4 => format_v4(self.addr as u32, self.len),
            Family::V6 => format_v6(self.addr, self.len),
        }
    }

    /// The network, in canonical form, of the given family.
    pub fn from_prefix(family: Family, p: Prefix) -> (r: IpOrNet)
        requires
            p.valid(family.width()),
        ensures
            r == (IpOrNet { family, addr: p.addr, len: p.len }),
            r.wf(),
            r.block() == p@,
            r.canonical() == p,
            r.addr == r.network_value(),
    {
        proof {
            crate::block::lemma_span(family.width(), 0, p.len as nat);
            crate::block::lemma_round_down_unique(
                p.addr as int,
                crate::block::span(family.width(), p.len as nat),
                p.addr as int,
            );
        }
        IpOrNet { family, addr: p.addr, len: p.len }
    }
}

/// A bare address is the network of full length that holds it alone.
impl From<IpAddress> for IpOrNet {
    fn from(addr: IpAddress) -> (r: IpOrNet) {
        IpOrNet::host(addr)
    }
}

impl FromSpecImpl<IpAddress> for IpOrNet {
    open spec fn obeys_from_spec() -> bool {
        true
    }

    open spec fn from_spec(addr: IpAddress) -> IpOrNet {
        IpOrNet {
            family: addr.family_of(),
            addr: addr.value() as u128,
            len: addr.family_of().width() as u8,
        }
    }
}

} // verus!
