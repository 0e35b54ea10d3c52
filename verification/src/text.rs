//! Text at the edge of the library: splitting, reading addresses and
//! writing networks, done by the standard library and by `ipnet`.

use vstd::prelude::*;
use crate::net::IpAddress;

verus! {

/// Number of characters of `s` before the first `c`; the length of `s`
/// where it holds no `c`.
pub open spec fn first_index(s: Seq<char>, c: char) -> int
    decreases s.len(),
{
    if s.len() == 0 || s[0] == c {
        0
    } else {
        1 + first_index(s.skip(1), c)
    }
}

/// `first_index` finds the place where a text without `c` is followed by `c`.
pub proof fn lemma_first_index(head: Seq<char>, c: char, tail: Seq<char>)
    requires
        !head.contains(c),
    ensures
        first_index(head + seq![c] + tail, c) == head.len(),
        (head + seq![c] + tail).take(head.len() as int) == head,
        (head + seq![c] + tail).skip(head.len() as int + 1) == tail,
    decreases head.len(),
{
    let s = head + seq![c] + tail;
    assert(s.take(head.len() as int) =~= head);
    assert(s.skip(head.len() as int + 1) =~= tail);
    if head.len() > 0 {
        assert(head.contains(head[0]));
        assert(s[0] == head[0]);
        assert(s.skip(1) =~= head.skip(1) + seq![c] + tail);
        assert forall|i: int| 0 <= i < head.skip(1).len() implies head.skip(1)[i] != c by {
            assert(head.contains(head[i + 1]));
        }
        lemma_first_index(head.skip(1), c, tail);
    } else {
        assert(s[0] == c);
    }
}

/// A text without `c` has its first index at its end.
pub proof fn lemma_first_index_absent(s: Seq<char>, c: char)
    requires
        !s.contains(c),
    ensures
        first_index(s, c) == s.len(),
    decreases s.len(),
{
    if s.len() > 0 {
        assert(s.contains(s[0]));
        assert forall|i: int| 0 <= i < s.skip(1).len() implies s.skip(1)[i] != c by {
            assert(s.contains(s[i + 1]));
        }
        lemma_first_index_absent(s.skip(1), c);
    }
}

/// Splits the text at the first `sep`.
///
/// Trusted: `str::split_once` of the standard library. With no `sep` in the
/// text it gives `None`; else the text before the first `sep` and the text
/// behind it.
#[verifier::external_body]
pub(crate) fn split_once<'a>(text: &'a str, sep: char) -> (r: Option<(&'a str, &'a str)>)
    ensures
        match r {
            None => !text@.contains(sep),
            Some((head, tail)) => text@ == head@ + seq![sep] + tail@ && !head@.contains(sep),
        },
{
    text.split_once(sep)
}

/// The address that a text writes, as the standard library reads it;
/// `None` where it reads none.
pub uninterp spec fn address_of_text(text: Seq<char>) -> Option<IpAddress>;

/// Reads an IPv4 or IPv6 address.
///
/// Trusted: `str::parse` of the standard library to the address type that
/// `ipnet::IpNet::new` takes; the network of length zero only carries the
/// address back as an integer. The result depends on the text alone.
#[verifier::external_body]
pub(crate) fn parse_address(text: &str) -> (r: Option<IpAddress>)
    ensures
        r == address_of_text(text@),
{
    match text.parse().map(|ip| ipnet::IpNet::new(ip, 0)) {
        Ok(Ok(ipnet::IpNet::V4(net))) => Some(IpAddress::V4(net.addr().into())),
        Ok(Ok(ipnet::IpNet::V6(net))) => Some(IpAddress::V6(net.addr().into())),
        _ => None,
    }
}

/// The character of a decimal digit.
pub open spec fn digit_char(d: int) -> char {
    ((48 + d) as u8) as char
}

/// A number in decimal digits, without a sign and without leading zeros.
pub open spec fn decimal(n: int) -> Seq<char>
    decreases n,
{
    if n < 10 {
        seq![digit_char(n)]
    } else {
        decimal(n / 10).push(digit_char(n % 10))
    }
}

/// An IPv4 address in dotted decimal form: its four bytes, the highest
/// first, each in decimal, with dots between them.
pub open spec fn dotted_quad(addr: int) -> Seq<char> {
    decimal(addr / 0x100_0000 % 256) + seq!['.'] + decimal(addr / 0x1_0000 % 256) + seq!['.']
        + decimal(addr / 0x100 % 256) + seq!['.'] + decimal(addr % 256)
}

/// The text of an IPv6 address, as the standard library writes it.
pub uninterp spec fn ipv6_text(addr: int) -> Seq<char>;

/// An IPv4 network in CIDR notation.
pub open spec fn cidr_text_v4(addr: int, len: nat) -> Seq<char> {
    dotted_quad(addr) + seq!['/'] + decimal(len as int)
}

/// An IPv6 network in CIDR notation.
pub open spec fn cidr_text_v6(addr: int, len: nat) -> Seq<char> {
    ipv6_text(addr) + seq!['/'] + decimal(len as int)
}

/// Writes an IPv4 network in CIDR notation.
///
/// Trusted: `Display` of `ipnet::Ipv4Net`, on the network that
/// `ipnet::Ipv4Net::new` makes of the address and the length. It writes
/// the address as the standard library does, in dotted decimal form, then a
/// slash and the length in decimal.
#[verifier::external_body]
pub(crate) fn format_v4(addr: u32, len: u8) -> (s: String)
    requires
        len <= 32,
    ensures
        s@ == cidr_text_v4(addr as int, len as nat),
{
    match ipnet::Ipv4Net::new(addr.into(), len) {
        Ok(net) => net.to_string(),
        Err(_) => String::new(),
    }
}

/// Writes an IPv6 network in CIDR notation.
///
/// Trusted: `Display` of `ipnet::Ipv6Net`, on the network that
/// `ipnet::Ipv6Net::new` makes of the address and the length. It writes
/// the address as the standard library does, which depends on the address
/// alone, then a slash and the length in decimal.
#[verifier::external_body]
pub(crate) fn format_v6(addr: u128, len: u8) -> (s: String)
    requires
        len <= 128,
    ensures
        s@ == ipv6_text(addr as int) + seq!['/'] + decimal(len as int),
{
    match ipnet::Ipv6Net::new(addr.into(), len) {
        Ok(net) => net.to_string(),
        Err(_) => String::new(),
    }
}

/// The characters that separate tokens: space, tab, line feed, form feed
/// and carriage return.
pub open spec fn is_space(c: char) -> bool {
    c == ' ' || c == '\t' || c == '\n' || c == '\x0C' || c == '\r'
}

/// The word in progress, if there is one, as a list of at most one word.
pub open spec fn finished(word: Seq<char>) -> Seq<Seq<char>> {
    if word.len() > 0 {
        seq![word]
    } else {
        Seq::empty()
    }
}

/// The words of `s` when `word` has been read of a word already.
pub open spec fn words_after(s: Seq<char>, word: Seq<char>) -> Seq<Seq<char>>
    decreases s.len(),
{
    if s.len() == 0 {
        finished(word)
    } else if is_space(s[0]) {
        finished(word) + words_after(s.skip(1), Seq::empty())
    } else {
        words_after(s.skip(1), word.push(s[0]))
    }
}

/// The words of a line: its longest runs of characters that are no
/// separators, from left to right.
pub open spec fn words(s: Seq<char>) -> Seq<Seq<char>> {
    words_after(s, Seq::empty())
}

/// The texts of a list of string slices.
pub open spec fn texts(v: Seq<&str>) -> Seq<Seq<char>> {
    Seq::new(v.len(), |i: int| v[i]@)
}

/// Splits a line into its words.
///
/// Trusted: `str::split_ascii_whitespace` of the standard library, its
/// items collected in order. It gives the runs of characters between ASCII
/// white space, none of them empty.
#[verifier::external_body]
pub(crate) fn ascii_words<'a>(line: &'a str) -> (r: Vec<&'a str>)
    ensures
        texts(r@) == words(line@),
{
    line.split_ascii_whitespace().collect()
}

} // verus!
