use rs_aggregate::error::{NetParseFault, PrefixlenFault};
use rs_aggregate::net::{IpAddress, IpOrNet};
use rs_aggregate::prefixlen::PrefixlenPair;

const TEST_V4_ADDR: IpAddress = IpAddress::V4(u32::from_be_bytes([198, 51, 100, 123]));
const TEST_V6_ADDR: IpAddress = IpAddress::V6(0x2001_0db8_0000_0000_0000_0000_23ab_f007);

fn test_v4_net() -> IpOrNet {
    match IpOrNet::new(IpAddress::V4(u32::from_be_bytes([192, 0, 2, 0])), 24) {
        Ok(net) => net,
        Err(_) => panic!("Couldn't unwrap test vector"),
    }
}

fn test_v6_net() -> IpOrNet {
    match IpOrNet::new(IpAddress::V6(0x2001_0db8_0000_0000_0000_0000_23ab_0000), 64) {
        Ok(net) => net,
        Err(_) => panic!("Couldn't unwrap test vector"),
    }
}

fn test_v4_allnet() -> IpOrNet {
    match IpOrNet::new(IpAddress::V4(0), 0) {
        Ok(net) => net,
        Err(_) => panic!("Couldn't unwrap test vector"),
    }
}

fn test_v6_allnet() -> IpOrNet {
    match IpOrNet::new(IpAddress::V6(0), 0) {
        Ok(net) => net,
        Err(_) => panic!("Couldn't unwrap test vector"),
    }
}

#[test]
fn parse_bare_v4() {
    let ip: IpOrNet = "198.51.100.123".parse().unwrap();
    assert_eq!(ip, TEST_V4_ADDR.into());
}

#[test]
fn parse_bare_v6() {
    let ip: IpOrNet = "2001:db8::23ab:f007".parse().unwrap();
    assert_eq!(ip, TEST_V6_ADDR.into());
}

#[test]
fn parse_cidr_v4() {
    let net: IpOrNet = "192.0.2.0/24".parse().unwrap();
    assert_eq!(net, test_v4_net());
}

#[test]
fn parse_cidr_v4_min() {
    let net: IpOrNet = "0.0.0.0/0".parse().unwrap();
    assert_eq!(net, test_v4_allnet());
}

#[test]
fn parse_cidr_v4_max() {
    let net: IpOrNet = "198.51.100.123/32".parse().unwrap();
    assert_eq!(net, TEST_V4_ADDR.into());
}

#[test]
fn parse_cidr_v6() {
    let net: IpOrNet = "2001:db8::23ab:0/64".parse().unwrap();
    assert_eq!(net, test_v6_net());
}

#[test]
fn parse_cidr_v6_min() {
    let net: IpOrNet = "::/0".parse().unwrap();
    assert_eq!(net, test_v6_allnet());
}

#[test]
fn parse_netmask_v4() {
    let net: IpOrNet = "192.0.2.0/255.255.255.0".parse().unwrap();
    assert_eq!(net, test_v4_net());
}

#[test]
fn parse_wildmask_v4() {
    let net: IpOrNet = "192.0.2.0/0.0.0.255".parse().unwrap();
    assert_eq!(net, test_v4_net());
}

#[test]
#[should_panic]
fn reject_v4_mask_v6() {
    let _net: IpOrNet = "2001:db8::23ab:0/255.255.255.0".parse().unwrap();
}

#[test]
#[should_panic]
fn reject_v6_mask_v6() {
    let _net: IpOrNet = "2001:db8::23ab:0/ffff:ffff:ffff:ffff:ffff:ffff:ffff:0"
        .parse()
        .unwrap();
}

#[test]
#[should_panic]
fn reject_v4_invalid_pfxlen() {
    let _net: IpOrNet = "192.0.2.0/33".parse().unwrap();
}

#[test]
#[should_panic]
fn reject_v6_invalid_pfxlen() {
    let _net: IpOrNet = "2001:db8::32ab:0/129".parse().unwrap();
}

#[test]
fn parse_single_prefixlen() {
    let pfxlen: PrefixlenPair = "20".parse().unwrap();
    assert_eq!(pfxlen, PrefixlenPair { v4: 20, v6: 20 });
}

#[test]
fn parse_pair_prefixlen() {
    let pfxlen: PrefixlenPair = "20,32".parse().unwrap();
    assert_eq!(pfxlen, PrefixlenPair { v4: 20, v6: 32 });
}

#[test]
#[should_panic]
fn reject_single_prefixlen_invalid() {
    let _pfxlen: PrefixlenPair = "129".parse().unwrap();
}

#[test]
#[should_panic]
fn reject_pair_prefixlen_invalid_v4() {
    let _pfxlen: PrefixlenPair = "33,32".parse().unwrap();
}

#[test]
#[should_panic]
fn reject_pair_prefixlen_invalid_v6() {
    let _pfxlen: PrefixlenPair = "32,129".parse().unwrap();
}

#[test]
#[should_panic]
fn reject_single_prefixlen_negative() {
    let _pfxlen: PrefixlenPair = "-32".parse().unwrap();
}

fn fault_of(token: &str) -> NetParseFault {
    match IpOrNet::from_str(token) {
        Ok(net) => panic!("{} was read as {:?}", token, net),
        Err(e) => e.kind,
    }
}

#[test]
fn each_fault_of_a_token() {
    assert_eq!(fault_of("192.0.2"), NetParseFault::InvalidAddress);
    assert_eq!(fault_of(""), NetParseFault::InvalidAddress);
    assert_eq!(fault_of("/24"), NetParseFault::InvalidAddress);
    assert_eq!(fault_of("192.0.2.0/"), NetParseFault::InvalidAddress);
    assert_eq!(fault_of("192.0.2.0/24/1"), NetParseFault::InvalidAddress);
    assert_eq!(fault_of("192.0.2.0/300"), NetParseFault::InvalidAddress);
    assert_eq!(fault_of("192.0.2.0/2001:db8::"), NetParseFault::InvalidAddress);
    assert_eq!(fault_of("192.0.2.0/255.0.255.0"), NetParseFault::InvalidSubnetMask);
    assert_eq!(fault_of("192.0.2.0/0.255.0.255"), NetParseFault::InvalidWildcardMask);
    assert_eq!(fault_of("2001:db8::/255.255.255.0"), NetParseFault::MaskWithIpv6);
    assert_eq!(fault_of("2001:db8::/300"), NetParseFault::MaskWithIpv6);
    assert_eq!(fault_of("192.0.2.0/33"), NetParseFault::PrefixLenOutOfRange);
    assert_eq!(fault_of("2001:db8::/129"), NetParseFault::PrefixLenOutOfRange);
}

#[test]
fn fault_messages_differ() {
    let kinds = [
        NetParseFault::InvalidAddress,
        NetParseFault::InvalidSubnetMask,
        NetParseFault::InvalidWildcardMask,
        NetParseFault::MaskWithIpv6,
        NetParseFault::PrefixLenOutOfRange,
    ];
    for (i, a) in kinds.iter().enumerate() {
        for (j, b) in kinds.iter().enumerate() {
            let ma = rs_aggregate::error::NetParseError { kind: *a }.message();
            let mb = rs_aggregate::error::NetParseError { kind: *b }.message();
            assert_eq!(ma == mb, i == j);
        }
    }
}

#[test]
fn masks_of_every_length() {
    for n in 1..=32u32 {
        let low: u32 = if n == 32 { 0 } else { (1u32 << (32 - n)) - 1 };
        let high = !low;
        assert_eq!(rs_aggregate::parse::mask_to_prefix_len(high), Ok(n as u8));
        assert_eq!(rs_aggregate::parse::mask_to_prefix_len(low), Ok(n as u8));
    }
    assert_eq!(
        rs_aggregate::parse::mask_to_prefix_len(0xff00_ff00).unwrap_err().kind,
        NetParseFault::InvalidSubnetMask
    );
    assert_eq!(
        rs_aggregate::parse::mask_to_prefix_len(0x00ff_00ff).unwrap_err().kind,
        NetParseFault::InvalidWildcardMask
    );
    assert_eq!(
        rs_aggregate::parse::mask_to_prefix_len(0x8000_0001).unwrap_err().kind,
        NetParseFault::InvalidSubnetMask
    );
}

#[test]
fn mask_tokens() {
    assert_eq!(IpOrNet::parse_mask("255.255.255.255"), Ok(32));
    assert_eq!(IpOrNet::parse_mask("0.0.0.0"), Ok(32));
    assert_eq!(IpOrNet::parse_mask("128.0.0.0"), Ok(1));
    assert_eq!(IpOrNet::parse_mask("127.255.255.255"), Ok(1));
    assert_eq!(IpOrNet::parse_mask("255.255.240.0"), Ok(20));
    assert_eq!(IpOrNet::parse_mask("0.0.15.255"), Ok(20));
    assert_eq!(IpOrNet::parse_mask("ffff::").unwrap_err().kind, NetParseFault::InvalidAddress);
}

#[test]
fn read_parts_one_by_one() {
    let a4 = IpAddress::V4(0xC000_0200);
    let a6 = IpAddress::V6(0x2001_0db8 << 96);
    let net = IpOrNet::from_read_parts(Some(a4), Some(24), None).unwrap();
    assert_eq!((net.addr, net.len), (0xC000_0200, 24));
    assert!(net.is_ipv4() && !net.is_ipv6());
    let net = IpOrNet::from_read_parts(Some(a4), None, Some(IpAddress::V4(0xffff_ff00))).unwrap();
    assert_eq!(net.len, 24);
    let net = IpOrNet::from_read_parts(Some(a4), Some(8), Some(IpAddress::V4(0xffff_ff00))).unwrap();
    assert_eq!(net.len, 8);
    let net = IpOrNet::from_read_parts(Some(a6), Some(128), None).unwrap();
    assert!(net.is_ipv6() && !net.is_ipv4());
    assert_eq!(
        IpOrNet::from_read_parts(None, Some(24), None).unwrap_err().kind,
        NetParseFault::InvalidAddress
    );
    assert_eq!(
        IpOrNet::from_read_parts(Some(a4), None, None).unwrap_err().kind,
        NetParseFault::InvalidAddress
    );
    assert_eq!(
        IpOrNet::from_read_parts(Some(a4), None, Some(a6)).unwrap_err().kind,
        NetParseFault::InvalidAddress
    );
    assert_eq!(
        IpOrNet::from_read_parts(Some(a6), None, Some(IpAddress::V4(0xffff_ff00))).unwrap_err().kind,
        NetParseFault::MaskWithIpv6
    );
    assert_eq!(
        IpOrNet::from_read_parts(Some(a4), Some(33), None).unwrap_err().kind,
        NetParseFault::PrefixLenOutOfRange
    );
}

#[test]
fn address_network_and_host_bits() {
    let net: IpOrNet = "198.51.100.123/24".parse().unwrap();
    assert_eq!(net.prefix_len(), 24);
    assert_eq!(net.addr(), IpAddress::V4(0xC633_647B));
    assert_eq!(net.network(), IpAddress::V4(0xC633_6400));
    assert!(net.has_host_bits());
    let net: IpOrNet = "198.51.100.0/24".parse().unwrap();
    assert!(!net.has_host_bits());
    let net: IpOrNet = "2001:db8::23ab:f007/64".parse().unwrap();
    assert_eq!(net.network(), IpAddress::V6(0x2001_0db8 << 96));
    assert!(net.has_host_bits());
    let net: IpOrNet = "255.255.255.255/0".parse().unwrap();
    assert_eq!(net.network(), IpAddress::V4(0));
    let net: IpOrNet = "ffff::1/0".parse().unwrap();
    assert_eq!(net.network(), IpAddress::V6(0));
    assert!(net.has_host_bits());
    let net: IpOrNet = "ffff::1/128".parse().unwrap();
    assert!(!net.has_host_bits());
}

#[test]
fn networks_as_text() {
    let net: IpOrNet = "192.0.2.0/255.255.255.0".parse().unwrap();
    assert_eq!(net.to_string(), "192.0.2.0/24");
    let net: IpOrNet = "198.51.100.123".parse().unwrap();
    assert_eq!(net.to_string(), "198.51.100.123/32");
    let net: IpOrNet = "2001:0db8:0000::23ab:f007/64".parse().unwrap();
    assert_eq!(net.to_string(), "2001:db8::23ab:f007/64");
    let net: IpOrNet = "::/0".parse().unwrap();
    assert_eq!(net.to_string(), "::/0");
}

#[test]
fn decimal_numbers_as_the_standard_library_reads_them() {
    for n in 0..1000u32 {
        let text = n.to_string();
        assert_eq!(rs_aggregate::decimal::parse_u8(&text), text.parse::<u8>().ok());
        let padded = format!("00{}", n);
        assert_eq!(rs_aggregate::decimal::parse_u8(&padded), padded.parse::<u8>().ok());
    }
    for text in [
        "", "+", "-", "+0", "-0", "+255", "+256", "++1", "1+", " 1", "1 ", "1_0", "0x10", "1.0", "٣",
        "12a", "a12", "0000000000000000000000000000000000255", "99999999999999999999999999999",
        "2\u{0665}",
    ] {
        assert_eq!(rs_aggregate::decimal::parse_u8(text), text.parse::<u8>().ok(), "{:?}", text);
    }
    assert_eq!(rs_aggregate::decimal::parse_u8("128"), Some(128));
    assert_eq!(rs_aggregate::decimal::parse_u8("+7"), Some(7));
    assert_eq!(rs_aggregate::decimal::parse_u8("256"), None);
}

#[test]
fn prefixlen_pairs() {
    assert_eq!(PrefixlenPair::from_str("32,128"), Ok(PrefixlenPair { v4: 32, v6: 128 }));
    assert_eq!(PrefixlenPair::from_str("0,0"), Ok(PrefixlenPair { v4: 0, v6: 0 }));
    assert_eq!(PrefixlenPair::from_str("32"), Ok(PrefixlenPair { v4: 32, v6: 32 }));
    assert_eq!(PrefixlenPair::from_str("0"), Ok(PrefixlenPair { v4: 0, v6: 0 }));
    assert_eq!(PrefixlenPair::from_str("33").unwrap_err().kind, PrefixlenFault::OutOfRange);
    assert_eq!(PrefixlenPair::from_str("64").unwrap_err().kind, PrefixlenFault::OutOfRange);
    assert_eq!(PrefixlenPair::from_str("128").unwrap_err().kind, PrefixlenFault::OutOfRange);
    assert_eq!(PrefixlenPair::from_str("129").unwrap_err().kind, PrefixlenFault::OutOfRange);
    assert_eq!(PrefixlenPair::from_str("33,32").unwrap_err().kind, PrefixlenFault::OutOfRange);
    assert_eq!(PrefixlenPair::from_str("32,129").unwrap_err().kind, PrefixlenFault::OutOfRange);
    assert_eq!(PrefixlenPair::from_str("-32").unwrap_err().kind, PrefixlenFault::NotANumber);
    assert_eq!(PrefixlenPair::from_str("").unwrap_err().kind, PrefixlenFault::NotANumber);
    assert_eq!(PrefixlenPair::from_str("20,").unwrap_err().kind, PrefixlenFault::NotANumber);
    assert_eq!(PrefixlenPair::from_str(",20").unwrap_err().kind, PrefixlenFault::NotANumber);
    assert_eq!(PrefixlenPair::from_str("20,30,40").unwrap_err().kind, PrefixlenFault::NotANumber);
    assert_eq!(PrefixlenPair::from_str("256").unwrap_err().kind, PrefixlenFault::NotANumber);
    assert_eq!(PrefixlenPair::from_str("300,20").unwrap_err().kind, PrefixlenFault::NotANumber);
    let d = PrefixlenPair::default();
    assert_eq!((d.v4, d.v6), (32, 128));
    assert_eq!(
        rs_aggregate::error::ParsePrefixlenError { kind: PrefixlenFault::NotANumber }.message(),
        "Unable to parse integer"
    );
    assert_eq!(
        rs_aggregate::error::ParsePrefixlenError { kind: PrefixlenFault::OutOfRange }.message(),
        "Invalid prefix length"
    );
}

#[test]
fn limits_against_networks() {
    let pair = PrefixlenPair { v4: 24, v6: 48 };
    let v4_24: IpOrNet = "192.0.2.0/24".parse().unwrap();
    let v4_25: IpOrNet = "192.0.2.0/25".parse().unwrap();
    let v4_23: IpOrNet = "192.0.2.0/23".parse().unwrap();
    let v6_48: IpOrNet = "2001:db8::/48".parse().unwrap();
    let v6_24: IpOrNet = "2001:db8::/24".parse().unwrap();
    let v6_64: IpOrNet = "2001:db8::/64".parse().unwrap();
    assert!(pair == v4_24 && pair == v6_48);
    assert!(pair != v4_25 && pair != v6_24);
    assert!(pair >= v4_24 && pair >= v4_23 && !(pair >= v4_25));
    assert!(pair >= v6_48 && pair >= v6_24 && !(pair >= v6_64));
    assert!(pair > v4_23 && !(pair > v4_24));
    assert!(pair > v6_24 && !(pair > v6_48));
    assert!(pair <= v4_24 && pair <= v4_25 && !(pair <= v4_23));
    assert!(pair <= v6_64 && !(pair <= v6_24));
    assert!(pair < v4_25 && !(pair < v4_24));
    assert!(pair < v6_64 && !(pair < v6_48));
    assert_eq!(pair.partial_cmp(&v4_24), Some(std::cmp::Ordering::Equal));
    assert_eq!(pair.partial_cmp(&v4_25), Some(std::cmp::Ordering::Less));
    assert_eq!(pair.partial_cmp(&v6_24), Some(std::cmp::Ordering::Greater));
    assert_eq!(pair.limit_for(&v4_24), 24);
    assert_eq!(pair.limit_for(&v6_24), 48);
}

#[test]
fn numbers_and_limits_as_text() {
    for n in 0..=255u8 {
        assert_eq!(rs_aggregate::decimal::format_u8(n), n.to_string());
        assert_eq!(rs_aggregate::decimal::parse_u8(&rs_aggregate::decimal::format_u8(n)), Some(n));
    }
    for d in 0..10u8 {
        assert_eq!(rs_aggregate::decimal::digit_str(d), d.to_string());
    }
    assert_eq!(PrefixlenPair::default().to_string(), "32,128");
    assert_eq!(PrefixlenPair { v4: 0, v6: 7 }.to_string(), "0,7");
    for v4 in 0..=32u8 {
        for v6 in [0u8, 1, 9, 10, 64, 99, 100, 128] {
            let pair = PrefixlenPair { v4, v6 };
            assert_eq!(PrefixlenPair::from_str(&pair.to_string()), Ok(pair));
        }
    }
}

#[test]
fn networks_as_text_as_ipnet_writes_them() {
    let mut x: u64 = 0x2545_F491_4F6C_DD1D;
    for _ in 0..500 {
        x ^= x << 13;
        x ^= x >> 7;
        x ^= x << 17;
        let a4 = x as u32;
        let l4 = ((x >> 32) % 33) as u8;
        let net = IpOrNet::new(IpAddress::V4(a4), l4).unwrap();
        assert_eq!(net.to_string(), ipnet::Ipv4Net::new(a4.into(), l4).unwrap().to_string());
        let quad = a4.to_be_bytes();
        assert_eq!(
            net.to_string(),
            format!("{}.{}.{}.{}/{}", quad[0], quad[1], quad[2], quad[3], l4)
        );
        let a6 = ((x as u128) << 64) | (x.rotate_left(17) as u128);
        let l6 = ((x >> 32) % 129) as u8;
        let net = IpOrNet::new(IpAddress::V6(a6), l6).unwrap();
        let text = net.to_string();
        assert_eq!(text, ipnet::Ipv6Net::new(a6.into(), l6).unwrap().to_string());
        assert_eq!(IpOrNet::from_str(&text), Ok(net));
        assert!(text.ends_with(&format!("/{}", l6)));
    }
}
