use rs_aggregate::error::NetParseFault;
use rs_aggregate::filter::{App, Args, Reason, Verdict};
use rs_aggregate::net::{Family, IpAddress, IpOrNet};
use rs_aggregate::prefix::Prefix;
use rs_aggregate::prefixlen::PrefixlenPair;
use rs_aggregate::range::IpBothRange;

fn run(args: Args, lines: &[&str]) -> (String, Vec<String>) {
    let mut app = App::new(args);
    let mut said = Vec::new();
    for line in lines {
        for r in app.consume_line(line) {
            match r.reason {
                Reason::Malformed(_) => said.push(r.token),
                Reason::HostBits(net) => said.push(net.to_string()),
            }
        }
    }
    app.simplify();
    (app.prefixes.to_string(), said)
}

fn truncating() -> Args {
    Args { truncate: true, ..Args::default() }
}

#[test]
fn siblings_merge_into_their_parent() {
    let (out, said) = run(Args::default(), &["192.0.2.0/25", "192.0.2.128/25"]);
    assert_eq!(out, "192.0.2.0/24\n");
    assert!(said.is_empty());
}

#[test]
fn a_part_is_absorbed() {
    let (out, said) = run(Args::default(), &["192.0.2.0/24 192.0.2.128/25"]);
    assert_eq!(out, "192.0.2.0/24\n");
    assert!(said.is_empty());
}

#[test]
fn a_bare_address_is_a_host_route() {
    let (out, said) = run(Args::default(), &["198.51.100.123"]);
    assert_eq!(out, "198.51.100.123/32\n");
    assert!(said.is_empty());
    let (out, said) = run(truncating(), &["198.51.100.123"]);
    assert_eq!(out, "198.51.100.123/32\n");
    assert!(said.is_empty());
}

#[test]
fn host_bits_are_turned_down_or_cleared() {
    let (out, said) = run(Args::default(), &["198.51.100.123/24"]);
    assert_eq!(out, "");
    assert_eq!(said, vec!["198.51.100.123/24".to_string()]);
    let (out, said) = run(truncating(), &["198.51.100.123/24"]);
    assert_eq!(out, "198.51.100.0/24\n");
    assert!(said.is_empty());
    let (out, said) = run(Args::default(), &["2001:db8::23ab:f007/64"]);
    assert_eq!(out, "");
    assert_eq!(said, vec!["2001:db8::23ab:f007/64".to_string()]);
    let (out, said) = run(truncating(), &["2001:db8::23ab:f007/64"]);
    assert_eq!(out, "2001:db8::/64\n");
    assert!(said.is_empty());
}

#[test]
fn a_mask_reads_as_its_length() {
    let masked = IpOrNet::from_str("192.0.2.0/255.255.255.0");
    let counted = IpOrNet::from_str("192.0.2.0/24");
    assert!(masked.is_ok());
    assert_eq!(masked, counted);
    let (out, _) = run(Args::default(), &["192.0.2.0/255.255.255.128", "192.0.2.128/0.0.0.127"]);
    assert_eq!(out, "192.0.2.0/24\n");
}

#[test]
fn one_family_alone() {
    let lines = ["192.0.2.0/24 2001:db8::/32", "2001:db8::1/128 not-a-net 10.0.0.1/8"];
    let only_v4 = Args { only_v4: true, ..Args::default() };
    let (out, said) = run(only_v4, &lines);
    assert_eq!(out, "192.0.2.0/24\n");
    assert_eq!(said, vec!["not-a-net".to_string(), "10.0.0.1/8".to_string()]);
    let only_v6 = Args { only_v6: true, ..Args::default() };
    let (out, said) = run(only_v6, &lines);
    assert_eq!(out, "2001:db8::/32\n");
    assert_eq!(said, vec!["not-a-net".to_string(), "10.0.0.1/8".to_string()]);
    let (out, _) = run(Args::default(), &lines);
    assert_eq!(out, "192.0.2.0/24\n2001:db8::/32\n");
    // host bits are looked at before the family
    let only_v6 = Args { only_v6: true, ..Args::default() };
    let (out, said) = run(only_v6, &["10.0.0.1/8"]);
    assert_eq!(out, "");
    assert_eq!(said, vec!["10.0.0.1/8".to_string()]);
}

#[test]
fn long_prefixes_are_left_out_without_a_word() {
    let args = Args { max_prefixlen: PrefixlenPair { v4: 20, v6: 32 }, ..Args::default() };
    let (out, said) = run(
        args,
        &["10.0.0.0/20 10.0.16.0/21 10.0.24.0/21 2001:db8::/32 2001:db8:1::/48 2001:db9::/33"],
    );
    assert_eq!(out, "10.0.0.0/20\n2001:db8::/32\n");
    assert!(said.is_empty());
    let args = Args { max_prefixlen: PrefixlenPair::from_str("32,64").unwrap(), ..Args::default() };
    let (out, _) = run(args, &["10.0.0.1 2001:db8::/64 2001:db8::1"]);
    assert_eq!(out, "10.0.0.1/32\n2001:db8::/64\n");
    let args = Args { max_prefixlen: PrefixlenPair::from_str("24").unwrap(), ..Args::default() };
    let (out, said) = run(args, &["10.0.0.1 10.1.0.0/24 2001:d00::/24 2001:d00::/25"]);
    assert_eq!(out, "10.1.0.0/24\n2001:d00::/24\n");
    assert!(said.is_empty());
}

#[test]
fn a_bad_token_does_not_stop_the_line() {
    let mut app = App::new(Args::default());
    let out = app.consume_line("  10.0.0.0/8\tbogus 10.0.0.0/33 \r\n 11.0.0.0/8 ::1/ffff:: 1.2.3.4/255.0.255.0");
    let said: Vec<(String, Reason)> = out.into_iter().map(|r| (r.token, r.reason)).collect();
    assert_eq!(
        said,
        vec![
            (
                "bogus".to_string(),
                Reason::Malformed(rs_aggregate::error::NetParseError { kind: NetParseFault::InvalidAddress })
            ),
            (
                "10.0.0.0/33".to_string(),
                Reason::Malformed(rs_aggregate::error::NetParseError {
                    kind: NetParseFault::PrefixLenOutOfRange
                })
            ),
            (
                "::1/ffff::".to_string(),
                Reason::Malformed(rs_aggregate::error::NetParseError { kind: NetParseFault::MaskWithIpv6 })
            ),
            (
                "1.2.3.4/255.0.255.0".to_string(),
                Reason::Malformed(rs_aggregate::error::NetParseError {
                    kind: NetParseFault::InvalidSubnetMask
                })
            ),
        ]
    );
    assert_eq!(
        app.prefixes.v4_iter(),
        &vec![Prefix { addr: 0x0A00_0000, len: 8 }, Prefix { addr: 0x0B00_0000, len: 8 }]
    );
    assert!(app.prefixes.v6_iter().is_empty());
    app.simplify();
    assert_eq!(app.prefixes.v4_iter(), &vec![Prefix { addr: 0x0A00_0000, len: 7 }]);
}

#[test]
fn lines_without_tokens() {
    let mut app = App::new(Args::default());
    assert!(app.consume_line("").is_empty());
    assert!(app.consume_line(" \t \r\n").is_empty());
    app.simplify();
    assert_eq!(app.prefixes.to_string(), "");
    assert!(app.prefixes.iter().next().is_none());
}

#[test]
fn verdicts() {
    let strict = Args::default();
    let net = |s: &str| IpOrNet::from_str(s).unwrap();
    assert_eq!(strict.verdict(&net("10.0.0.0/8")), Verdict::Added);
    assert_eq!(strict.verdict(&net("10.0.0.1/8")), Verdict::HostBitsSet);
    assert_eq!(truncating().verdict(&net("10.0.0.1/8")), Verdict::Added);
    let only_v4 = Args { only_v4: true, ..Args::default() };
    assert_eq!(only_v4.verdict(&net("::/0")), Verdict::OtherFamily);
    assert_eq!(only_v4.verdict(&net("::1/0")), Verdict::HostBitsSet);
    let only_v6 = Args { only_v6: true, ..Args::default() };
    assert_eq!(only_v6.verdict(&net("10.0.0.0/8")), Verdict::OtherFamily);
    let short = Args { max_prefixlen: PrefixlenPair { v4: 8, v6: 16 }, ..Args::default() };
    assert_eq!(short.verdict(&net("10.0.0.0/8")), Verdict::Added);
    assert_eq!(short.verdict(&net("10.0.0.0/9")), Verdict::TooLong);
    assert_eq!(short.verdict(&net("2001::/16")), Verdict::Added);
    assert_eq!(short.verdict(&net("2001::/17")), Verdict::TooLong);
    let mut app = App::new(short);
    assert_eq!(app.add_prefix(net("10.0.0.0/9")), Verdict::TooLong);
    assert_eq!(app.add_prefix(net("10.0.0.0/8")), Verdict::Added);
    assert_eq!(app.consume_token("11.0.0.0/8"), None);
    assert_eq!(app.consume_token("11.0.0.1/8"), Some(Reason::HostBits(net("11.0.0.1/8"))));
    assert_eq!(app.prefixes.v4_iter().len(), 2);
}

#[test]
fn the_walk_gives_ipv4_first() {
    let mut ranges = IpBothRange::new();
    ranges.add(IpOrNet::from_str("2001:db8::/32").unwrap());
    ranges.add(IpOrNet::from_str("192.0.2.77/24").unwrap());
    ranges.add(IpOrNet::from_str("::/0").unwrap());
    ranges.add(IpOrNet::from_str("10.0.0.0/8").unwrap());
    let mut it = ranges.iter();
    let mut seen = Vec::new();
    while let Some(net) = it.next() {
        seen.push(net.to_string());
    }
    assert_eq!(seen, vec!["192.0.2.0/24", "10.0.0.0/8", "2001:db8::/32", "::/0"]);
    assert!(it.next().is_none());
    ranges.simplify();
    let mut it = ranges.iter();
    let first = it.next().unwrap();
    assert_eq!(first.family, Family::V4);
    assert_eq!(first.addr(), IpAddress::V4(0x0A00_0000));
    assert_eq!(ranges.to_string(), "10.0.0.0/8\n192.0.2.0/24\n::/0\n");
}

#[test]
fn output_read_again_aggregates_to_itself() {
    let (out, _) = run(
        truncating(),
        &[
            "10.0.0.0/24 10.0.1.0/24 10.0.2.0/23 10.0.4.0/22 10.1.0.0/16",
            "2001:db8::/33 2001:db8:8000::/33 2001:db8::1 fe80::/10 10.0.0.77",
        ],
    );
    assert_eq!(out, "10.0.0.0/21\n10.1.0.0/16\n2001:db8::/32\nfe80::/10\n");
    let again: Vec<&str> = out.lines().collect();
    let (twice, said) = run(Args::default(), &again);
    assert_eq!(twice, out);
    assert!(said.is_empty());
}
