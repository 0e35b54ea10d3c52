//! Reading a token: a bare address, or an address with a prefix length, a
//! dotted subnet mask or a dotted wildcard mask behind a slash.

use vstd::prelude::*;
use vstd::arithmetic::power2::{pow2, lemma_pow2_strictly_increases};
use crate::decimal::{decimal_u8, parse_u8};
use crate::error::{NetParseError, NetParseFault};
use crate::net::{Family, IpAddress, IpOrNet};
use crate::prefix::{host_mask, lemma_pow2_128, lemma_pow2_fits};
use crate::text::{
    address_of_text, first_index, lemma_first_index, lemma_first_index_absent, parse_address,
    split_once,
};

verus! {

/// The subnet mask of prefix length `n`: the `n` highest of 32 bits set.
pub open spec fn netmask(n: nat) -> int {
    pow2(32) - pow2((32 - n) as nat)
}

/// The wildcard mask of prefix length `n`: the `32 - n` lowest bits set.
pub open spec fn wildcard(n: nat) -> int {
    pow2((32 - n) as nat) - 1
}

/// The first length from `n` up to 32 of which `m` is the subnet mask or
/// the wildcard mask.
pub open spec fn mask_len_from(m: u32, n: nat) -> Option<u8>
    decreases 33 - n,
{
    if n > 32 {
        None
    } else if m == netmask(n) || m == wildcard(n) {
        Some(n as u8)
    } else {
        mask_len_from(m, n + 1)
    }
}

/// The prefix length, from 1 to 32, that a mask stands for. A mask that
/// is neither a subnet mask nor a wildcard mask is invalid: as a subnet
/// mask where its highest bit is set, as a wildcard mask where it is not.
pub open spec fn mask_len(m: u32) -> Result<u8, NetParseError> {
    match mask_len_from(m, 1) {
        Some(n) => Ok(n),
        None => Err(
            NetParseError {
                kind: if m >= 0x8000_0000u32 {
                    NetParseFault::InvalidSubnetMask
                } else {
                    NetParseFault::InvalidWildcardMask
                },
            },
        ),
    }
}

/// At most one length has a given mask: masks of different lengths differ.
pub proof fn lemma_mask_len_unique(m: u32, a: nat, b: nat)
    requires
        1 <= a <= 32,
        1 <= b <= 32,
        m == netmask(a) || m == wildcard(a),
        m == netmask(b) || m == wildcard(b),
    ensures
        a == b,
{
    lemma_pow2_128();
    lemma_pow2_fits((32 - a) as nat);
    lemma_pow2_fits((32 - b) as nat);
    lemma_pow2_strictly_increases((32 - a) as nat, 32);
    lemma_pow2_strictly_increases((32 - b) as nat, 32);
    vstd::arithmetic::power2::lemma_pow2_adds(31, 1);
    vstd::arithmetic::power2::lemma2_to64();
    if a < b {
        lemma_pow2_strictly_increases((32 - b) as nat, (32 - a) as nat);
    } else if b < a {
        lemma_pow2_strictly_increases((32 - a) as nat, (32 - b) as nat);
    }
    if 32 - a < 31 {
        lemma_pow2_strictly_increases((32 - a) as nat, 31);
    }
    if 32 - b < 31 {
        lemma_pow2_strictly_increases((32 - b) as nat, 31);
    }
}

/// No length from `from` up to `upto` has the mask `m`, so the search
/// from `from` goes on at `upto`.
proof fn lemma_mask_search_skips(m: u32, from: nat, upto: nat)
    requires
        1 <= from <= upto <= 33,
        forall|k: nat| from <= k < upto ==> m != netmask(k) && m != wildcard(k),
    ensures
        mask_len_from(m, from) == mask_len_from(m, upto),
    decreases upto - from,
{
    if from < upto {
        lemma_mask_search_skips(m, from + 1, upto);
    }
}

/// A subnet mask and a wildcard mask stand for the prefix length that
/// they are the mask of: a mask reads as its length.
pub proof fn law_mask_reads_as_length(m: u32, n: nat)
    requires
        1 <= n <= 32,
        m == netmask(n) || m == wildcard(n),
    ensures
        mask_len(m) == Ok::<u8, NetParseError>(n as u8),
{
    assert forall|k: nat| 1 <= k < n implies m != netmask(k) && m != wildcard(k) by {
        if m == netmask(k) || m == wildcard(k) {
            lemma_mask_len_unique(m, k, n);
        }
    }
    lemma_mask_search_skips(m, 1, n);
}

/// The prefix length of a subnet mask or a wildcard mask.
pub fn mask_to_prefix_len(m: u32) -> (r: Result<u8, NetParseError>)
    ensures
        r == mask_len(m),
        r matches Ok(n) ==> 1 <= n <= 32 && (m == netmask(n as nat) || m == wildcard(n as nat)),
        r is Err ==> forall|n: nat| 1 <= n <= 32 ==> m != netmask(n) && m != wildcard(n),
{
    let mut n: u8 = 1;
    while n <= 32
        invariant
            1 <= n <= 33,
            mask_len_from(m, 1) == mask_len_from(m, n as nat),
            forall|k: nat| 1 <= k < n ==> m != netmask(k) && m != wildcard(k),
        decreases 33 - n,
    {
        proof {
            lemma_pow2_128();
            lemma_pow2_fits((32 - n) as nat);
            lemma_pow2_strictly_increases((32 - n) as nat, 32);
        }
        let low = host_mask(32 - n) as u32;
        if m == low || m == u32::MAX - low {
            return Ok(n);
        }
        n += 1;
    }
    Err(
        NetParseError {
            kind: if m >= 0x8000_0000u32 {
                NetParseFault::InvalidSubnetMask
            } else {
                NetParseFault::InvalidWildcardMask
            },
        },
    )
}

/// What a dotted mask gives, once it has been read as an address.
pub open spec fn mask_of(mask: Option<IpAddress>) -> Result<u8, NetParseError> {
    match mask {
        Some(IpAddress::V4(m)) => mask_len(m),
        _ => Err(NetParseError { kind: NetParseFault::InvalidAddress }),
    }
}

/// The network of an address and a prefix length.
pub open spec fn net_of(addr: IpAddress, len: u8) -> Result<IpOrNet, NetParseError> {
    if len <= addr.family_of().width() {
        Ok(IpOrNet { family: addr.family_of(), addr: addr.value() as u128, len })
    } else {
        Err(NetParseError { kind: NetParseFault::PrefixLenOutOfRange })
    }
}

/// The network of a bare address: the address with the full length.
pub open spec fn host_of(addr: Option<IpAddress>) -> Result<IpOrNet, NetParseError> {
    match addr {
        Some(a) => Ok(
            IpOrNet { family: a.family_of(), addr: a.value() as u128, len: a.family_of().width() as u8 },
        ),
        None => Err(NetParseError { kind: NetParseFault::InvalidAddress }),
    }
}

/// What the two sides of a slash give, once read: `addr` is the left side
/// as an address, `len` the right side as a number and `mask` the right
/// side as an address. A number wins over a mask; a mask goes with an IPv4
/// address alone.
pub open spec fn parts_of(addr: Option<IpAddress>, len: Option<u8>, mask: Option<IpAddress>) -> Result<
    IpOrNet,
    NetParseError,
> {
    match addr {
        None => Err(NetParseError { kind: NetParseFault::InvalidAddress }),
        Some(a) => match len {
            Some(l) => net_of(a, l),
            None => if a.family_of() == Family::V4 {
                match mask_of(mask) {
                    Ok(l) => net_of(a, l),
                    Err(e) => Err(e),
                }
            } else {
                Err(NetParseError { kind: NetParseFault::MaskWithIpv6 })
            },
        },
    }
}

/// What a token gives: with a slash, the parts on its two sides; without
/// one, a bare address.
pub open spec fn token_of(s: Seq<char>) -> Result<IpOrNet, NetParseError> {
    let k = first_index(s, '/');
    if k < s.len() {
        parts_of(
            address_of_text(s.take(k)),
            decimal_u8(s.skip(k + 1)),
            address_of_text(s.skip(k + 1)),
        )
    } else {
        host_of(address_of_text(s))
    }
}

impl IpOrNet {
    /// Puts a network together from what was read on the two sides of a
    /// slash.
    pub fn from_read_parts(addr: Option<IpAddress>, len: Option<u8>, mask: Option<IpAddress>) -> (r:
        Result<IpOrNet, NetParseError>)
        ensures
            r == parts_of(addr, len, mask),
            r matches Ok(net) ==> net.wf(),
    {
        match addr {
            None => Err(NetParseError { kind: NetParseFault::InvalidAddress }),
            Some(a) => match len {
                Some(l) => IpOrNet::new(a, l),
                None => match a {
                    IpAddress::V4(_) => match mask {
                        Some(IpAddress::V4(m)) => match mask_to_prefix_len(m) {
                            Ok(l) => IpOrNet::new(a, l),
                            Err(e) => Err(e),
                        },
                        _ => Err(NetParseError { kind: NetParseFault::InvalidAddress }),
                    },
                    IpAddress::V6(_) => Err(NetParseError { kind: NetParseFault::MaskWithIpv6 }),
                },
            },
        }
    }

    /// Reads a dotted subnet mask or wildcard mask and gives its prefix
    /// length.
    pub fn parse_mask(p: &str) -> (r: Result<u8, NetParseError>)
        ensures
            r == mask_of(address_of_text(p@)),
    {
        match parse_address(p) {
            Some(IpAddress::V4(m)) => mask_to_prefix_len(m),
            _ => Err(NetParseError { kind: NetParseFault::InvalidAddress }),
        }
    }

    /// Reads a network from the text before a slash and the text behind it.
    pub fn from_parts(ip: &str, pfxlen: &str) -> (r: Result<IpOrNet, NetParseError>)
        ensures
            r == parts_of(address_of_text(ip@), decimal_u8(pfxlen@), address_of_text(pfxlen@)),
            r matches Ok(net) ==> net.wf(),
    {
        let addr = parse_address(ip);
        let len = parse_u8(pfxlen);
        let mask = match len {
            Some(_) => None,
            None => parse_address(pfxlen),
        };
        IpOrNet::from_read_parts(addr, len, mask)
    }

    /// Reads a token: an address, or an address and, behind a slash, a
    /// prefix length, a subnet mask or a wildcard mask.
    pub fn from_str(s: &str) -> (r: Result<IpOrNet, NetParseError>)
        ensures
            r == token_of(s@),
            r matches Ok(net) ==> net.wf(),
    {
        match split_once(s, '/') {
            Some((ip, pfxlen)) => {
                proof {
                    lemma_first_index(ip@, '/', pfxlen@);
                }
                IpOrNet::from_parts(ip, pfxlen)
            },
            None => {
                proof {
                    lemma_first_index_absent(s@, '/');
                }
                match parse_address(s) {
                    Some(a) => Ok(IpOrNet::host(a)),
                    None => Err(NetParseError { kind: NetParseFault::InvalidAddress }),
                }
            },
        }
    }
}

impl core::str::FromStr for IpOrNet {
    type Err = NetParseError;

    /// Reads a token as the inherent `from_str` does.
    fn from_str(s: &str) -> (r: Result<IpOrNet, NetParseError>)
        ensures
            r == token_of(s@),
            r matches Ok(net) ==> net.wf(),
    {
        IpOrNet::from_str(s)
    }
}

} // verus!
