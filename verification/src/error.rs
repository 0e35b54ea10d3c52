//! Why a token or a prefix-length setting was turned down.

use vstd::prelude::*;

verus! {

/// What is wrong with a token that should name an address or a network.
#[derive(Clone, Copy, Debug, PartialEq, Eq, Structural)]
pub enum NetParseFault {
    /// The address, or the text in the place of a dotted mask, is no address.
    InvalidAddress,
    /// The mask starts with a set bit, but its set bits are not one run from the top.
    InvalidSubnetMask,
    /// The mask starts with a clear bit, but its set bits are not one run from the bottom.
    InvalidWildcardMask,
    /// A mask stands behind an IPv6 address.
    MaskWithIpv6,
    /// The prefix length is beyond the width of the address.
    PrefixLenOutOfRange,
}

/// The error of parsing an address or a network.
#[derive(Clone, Copy, Debug, PartialEq, Eq, Structural)]
pub struct NetParseError {
    pub kind: NetParseFault,
}

impl NetParseError {
    /// A few words on the fault, for a diagnostic.
    pub fn message(&self) -> (msg: &'static str)
        ensures
            msg@ == Self::text_of(self.kind),
    {
        match self.kind {
            NetParseFault::InvalidAddress => "Invalid IP address syntax",
            NetParseFault::InvalidSubnetMask => "Invalid subnet mask",
            NetParseFault::InvalidWildcardMask => "Invalid wildcard mask",
            NetParseFault::MaskWithIpv6 => "Mask form is not valid for IPv6 address",
            NetParseFault::PrefixLenOutOfRange => "Invalid prefix length",
        }
    }

    /// The words that `message` gives for each fault.
    pub open spec fn text_of(kind: NetParseFault) -> Seq<char> {
        match kind {
            NetParseFault::InvalidAddress => "Invalid IP address syntax"@,
            NetParseFault::InvalidSubnetMask => "Invalid subnet mask"@,
            NetParseFault::InvalidWildcardMask => "Invalid wildcard mask"@,
            NetParseFault::MaskWithIpv6 => "Mask form is not valid for IPv6 address"@,
            NetParseFault::PrefixLenOutOfRange => "Invalid prefix length"@,
        }
    }
}

/// What is wrong with a text that should give the largest prefix lengths.
#[derive(Clone, Copy, Debug, PartialEq, Eq, Structural)]
pub enum PrefixlenFault {
    /// A part of the text is not a decimal number that fits in eight bits.
    NotANumber,
    /// A number is beyond the width of its address family.
    OutOfRange,
}

/// The error of parsing the largest prefix lengths.
#[derive(Clone, Copy, Debug, PartialEq, Eq, Structural)]
pub struct ParsePrefixlenError {
    pub kind: PrefixlenFault,
}

impl ParsePrefixlenError {
    /// A few words on the fault, for a diagnostic.
    pub fn message(&self) -> (msg: &'static str)
        ensures
            msg@ == Self::text_of(self.kind),
    {
        match self.kind {
            PrefixlenFault::NotANumber => "Unable to parse integer",
            PrefixlenFault::OutOfRange => "Invalid prefix length",
        }
    }

    /// The words that `message` gives for each fault.
    pub open spec fn text_of(kind: PrefixlenFault) -> Seq<char> {
        match kind {
            PrefixlenFault::NotANumber => "Unable to parse integer"@,
            PrefixlenFault::OutOfRange => "Invalid prefix length"@,
        }
    }
}

} // verus!
