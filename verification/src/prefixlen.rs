//! The largest prefix length that is let in, one for each family.

use core::cmp::Ordering;
use vstd::prelude::*;
use vstd::std_specs::cmp::{PartialEqSpecImpl, PartialOrdSpecImpl};
use crate::decimal::{decimal_u8, format_u8, lemma_decimal_reads_back, parse_u8};
use crate::error::{ParsePrefixlenError, PrefixlenFault};
use crate::net::{Family, IpOrNet};
use crate::text::{decimal, first_index, lemma_first_index, lemma_first_index_absent, split_once};
use vstd::string::StringExecFns;

verus! {

/// The largest prefix length let in for IPv4 and the one for IPv6.
#[derive(Clone, Copy, Debug)]
pub struct PrefixlenPair {
    pub v4: u8,
    pub v6: u8,
}

/// What a text gives as a pair of limits: two numbers around a comma, for
/// IPv4 and for IPv6, or one number for both. Each must be a decimal number
/// of eight bits, and no limit may be beyond the width of its family: a
/// single number, which is the limit of both families, may be 32 at most.
pub open spec fn pair_of(s: Seq<char>) -> Result<PrefixlenPair, ParsePrefixlenError> {
    let k = first_index(s, ',');
    if k < s.len() {
        match (decimal_u8(s.take(k)), decimal_u8(s.skip(k + 1))) {
            (Some(v4), Some(v6)) => if v4 > 32 || v6 > 128 {
                Err(ParsePrefixlenError { kind: PrefixlenFault::OutOfRange })
            } else {
                Ok(PrefixlenPair { v4, v6 })
            },
            _ => Err(ParsePrefixlenError { kind: PrefixlenFault::NotANumber }),
        }
    } else {
        match decimal_u8(s) {
            Some(len) => if len > 32 {
                Err(ParsePrefixlenError { kind: PrefixlenFault::OutOfRange })
            } else {
                Ok(PrefixlenPair { v4: len, v6: len })
            },
            None => Err(ParsePrefixlenError { kind: PrefixlenFault::NotANumber }),
        }
    }
}

impl PrefixlenPair {
    /// Neither limit is beyond the width of its family.
    pub open spec fn wf(&self) -> bool {
        self.v4 <= 32 && self.v6 <= 128
    }

    /// The limit for a family.
    pub open spec fn limit(&self, family: Family) -> u8 {
        match family {
            Family::V4 => self.v4,
            Family::V6 => self.v6,
        }
    }

    /// The limit for the family of the given network.
    pub fn limit_for(&self, net: &IpOrNet) -> (l: u8)
        ensures
            l == self.limit(net.family),
    {
        match net.family {
            Family::V4 => self.v4,
            Family::V6 => self.v6,
        }
    }

    /// The limits as text: the one for IPv4, a comma, the one for IPv6.
    pub open spec fn text(&self) -> Seq<char> {
        decimal(self.v4 as int) + seq![','] + decimal(self.v6 as int)
    }

    /// Writes the limits as `v4,v6`.
    pub fn to_string(&self) -> (s: String)
        ensures
            s@ == self.text(),
    {
        let mut s = format_u8(self.v4);
        let v6 = format_u8(self.v6);
        proof {
            reveal_strlit(",");
            assert(","@ =~= seq![',']);
        }
        s.append(",");
        s.append(v6.as_str());
        s
    }

    /// Reads the limits from `v4,v6` or from one number for both.
    pub fn from_str(s: &str) -> (r: Result<PrefixlenPair, ParsePrefixlenError>)
        ensures
            r == pair_of(s@),
            r matches Ok(pair) ==> pair.wf(),
    {
        match split_once(s, ',') {
            Some((left, right)) => {
                proof {
                    lemma_first_index(left@, ',', right@);
                }
                let v4 = match parse_u8(left) {
                    Some(n) => n,
                    None => {
                        return Err(ParsePrefixlenError { kind: PrefixlenFault::NotANumber });
                    },
                };
                let v6 = match parse_u8(right) {
                    Some(n) => n,
                    None => {
                        return Err(ParsePrefixlenError { kind: PrefixlenFault::NotANumber });
                    },
                };
                if v4 > 32 || v6 > 128 {
                    return Err(ParsePrefixlenError { kind: PrefixlenFault::OutOfRange });
                }
                Ok(PrefixlenPair { v4, v6 })
            },
            None => {
                proof {
                    lemma_first_index_absent(s@, ',');
                }
                let len = match parse_u8(s) {
                    Some(n) => n,
                    None => {
                        return Err(ParsePrefixlenError { kind: PrefixlenFault::NotANumber });
                    },
                };
                if len > 32 {
                    return Err(ParsePrefixlenError { kind: PrefixlenFault::OutOfRange });
                }
                Ok(PrefixlenPair { v4: len, v6: len })
            },
        }
    }
}

/// Decimal digits hold no comma.
proof fn lemma_decimal_without_comma(n: int)
    requires
        0 <= n,
    ensures
        !decimal(n).contains(','),
    decreases n,
{
    let s = decimal(n);
    if n >= 10 {
        lemma_decimal_without_comma(n / 10);
        assert forall|i: int| 0 <= i < s.len() implies s[i] != ',' by {
            if i < s.len() - 1 {
                assert(decimal(n / 10).contains(decimal(n / 10)[i]));
            }
        }
    }
}

/// Limits within the widths of their families read back from their text
/// as they were written.
pub proof fn law_text_reads_back(pair: PrefixlenPair)
    requires
        pair.wf(),
    ensures
        pair_of(pair.text()) == Ok::<PrefixlenPair, ParsePrefixlenError>(pair),
{
    let head = decimal(pair.v4 as int);
    let tail = decimal(pair.v6 as int);
    lemma_decimal_without_comma(pair.v4 as int);
    lemma_first_index(head, ',', tail);
    lemma_decimal_reads_back(pair.v4 as int);
    lemma_decimal_reads_back(pair.v6 as int);
}

impl Default for PrefixlenPair {
    /// The widths of the two families: nothing is kept out.
    fn default() -> (r: PrefixlenPair)
        ensures
            r.v4 == 32,
            r.v6 == 128,
    {
        PrefixlenPair { v4: 32, v6: 128 }
    }
}

impl core::str::FromStr for PrefixlenPair {
    type Err = ParsePrefixlenError;

    /// Reads the limits as the inherent `from_str` does.
    fn from_str(s: &str) -> (r: Result<PrefixlenPair, ParsePrefixlenError>)
        ensures
            r == pair_of(s@),
            r matches Ok(pair) ==> pair.wf(),
    {
        PrefixlenPair::from_str(s)
    }
}

impl PartialEq<PrefixlenPair> for PrefixlenPair {
    fn eq(&self, other: &PrefixlenPair) -> (r: bool) {
        self.v4 == other.v4 && self.v6 == other.v6
    }
}

impl PartialEqSpecImpl<PrefixlenPair> for PrefixlenPair {
    open spec fn obeys_eq_spec() -> bool {
        true
    }

    open spec fn eq_spec(&self, other: &PrefixlenPair) -> bool {
        self.v4 == other.v4 && self.v6 == other.v6
    }
}

/// A pair of limits equals a network where the limit for the network's
/// family is the network's prefix length.
impl PartialEq<IpOrNet> for PrefixlenPair {
    fn eq(&self, other: &IpOrNet) -> (r: bool) {
        match other.family {
            Family::V4 => self.v4 == other.len,
            Family::V6 => self.v6 == other.len,
        }
    }
}

impl PartialEqSpecImpl<IpOrNet> for PrefixlenPair {
    open spec fn obeys_eq_spec() -> bool {
        true
    }

    open spec fn eq_spec(&self, other: &IpOrNet) -> bool {
        self.limit(other.family) == other.len
    }
}

/// A pair of limits compares with a network as the limit for the network's
/// family compares with the network's prefix length.
impl PartialOrd<IpOrNet> for PrefixlenPair {
    fn partial_cmp(&self, other: &IpOrNet) -> (r: Option<Ordering>) {
        let limit = self.limit_for(other);
        if limit < other.len {
            Some(Ordering::Less)
        } else if limit == other.len {
            Some(Ordering::Equal)
        } else {
            Some(Ordering::Greater)
        }
    }

    fn lt(&self, other: &IpOrNet) -> (r: bool) {
        match other.family {
            Family::V4 => self.v4 < other.len,
            Family::V6 => self.v6 < other.len,
        }
    }

    fn le(&self, other: &IpOrNet) -> (r: bool) {
        match other.family {
            Family::V4 => self.v4 <= other.len,
            Family::V6 => self.v6 <= other.len,
        }
    }

    fn gt(&self, other: &IpOrNet) -> (r: bool) {
        match other.family {
            Family::V4 => self.v4 > other.len,
            Family::V6 => self.v6 > other.len,
        }
    }

    fn ge(&self, other: &IpOrNet) -> (r: bool) {
        match other.family {
            Family::V4 => self.v4 >= other.len,
            Family::V6 => self.v6 >= other.len,
        }
    }
}

impl PartialOrdSpecImpl<IpOrNet> for PrefixlenPair {
    open spec fn obeys_partial_cmp_spec() -> bool {
        true
    }

    open spec fn partial_cmp_spec(&self, other: &IpOrNet) -> Option<Ordering> {
        if self.limit(other.family) < other.len {
            Some(Ordering::Less)
        } else if self.limit(other.family) == other.len {
            Some(Ordering::Equal)
        } else {
            Some(Ordering::Greater)
        }
    }
}

} // verus!
