use rs_aggregate::aggregate::{absorb, aggregate, merge};
use rs_aggregate::prefix::{host_mask, network, Prefix};
use rs_aggregate::sort::{comes_first, merge_ordered, sort};

fn v4(a: u8, b: u8, c: u8, d: u8, len: u8) -> Prefix {
    Prefix { addr: u32::from_be_bytes([a, b, c, d]) as u128, len }
}

fn as_ipnet_v4(p: &Prefix) -> ipnet::Ipv4Net {
    ipnet::Ipv4Net::new((p.addr as u32).into(), p.len).unwrap()
}

fn as_ipnet_v6(p: &Prefix) -> ipnet::Ipv6Net {
    ipnet::Ipv6Net::new(p.addr.into(), p.len).unwrap()
}

fn last(w: u8, p: &Prefix) -> u128 {
    p.addr + host_mask(w - p.len)
}

/// A sequence of numbers that looks random and is the same in every run.
struct Numbers(u64);

impl Numbers {
    fn next(&mut self) -> u64 {
        self.0 ^= self.0 << 13;
        self.0 ^= self.0 >> 7;
        self.0 ^= self.0 << 17;
        self.0
    }
}

#[test]
fn sibling_merge() {
    let out = aggregate(32, vec![v4(192, 0, 2, 0, 25), v4(192, 0, 2, 128, 25)]);
    assert_eq!(out, vec![v4(192, 0, 2, 0, 24)]);
}

#[test]
fn absorption() {
    let out = aggregate(32, vec![v4(192, 0, 2, 0, 24), v4(192, 0, 2, 128, 25)]);
    assert_eq!(out, vec![v4(192, 0, 2, 0, 24)]);
    let out = aggregate(32, vec![v4(192, 0, 2, 128, 25), v4(192, 0, 2, 0, 24)]);
    assert_eq!(out, vec![v4(192, 0, 2, 0, 24)]);
}

#[test]
fn empty_input_gives_empty_output() {
    assert_eq!(aggregate(32, vec![]), vec![]);
    assert_eq!(aggregate(128, vec![]), vec![]);
}

#[test]
fn length_zero_absorbs_everything() {
    let out = aggregate(
        32,
        vec![v4(10, 0, 0, 0, 8), v4(0, 0, 0, 0, 0), v4(255, 255, 255, 255, 32), v4(0, 0, 0, 0, 32)],
    );
    assert_eq!(out, vec![v4(0, 0, 0, 0, 0)]);
    let out = aggregate(
        128,
        vec![Prefix { addr: u128::MAX, len: 128 }, Prefix { addr: 0, len: 0 }, Prefix { addr: 1 << 127, len: 1 }],
    );
    assert_eq!(out, vec![Prefix { addr: 0, len: 0 }]);
}

#[test]
fn two_halves_make_the_whole_space() {
    let out = aggregate(32, vec![v4(128, 0, 0, 0, 1), v4(0, 0, 0, 0, 1)]);
    assert_eq!(out, vec![v4(0, 0, 0, 0, 0)]);
    let out = aggregate(128, vec![Prefix { addr: 1 << 127, len: 1 }, Prefix { addr: 0, len: 1 }]);
    assert_eq!(out, vec![Prefix { addr: 0, len: 0 }]);
}

#[test]
fn duplicates_collapse() {
    let out = aggregate(32, vec![v4(10, 1, 0, 0, 16), v4(10, 1, 0, 0, 16), v4(10, 1, 0, 0, 16)]);
    assert_eq!(out, vec![v4(10, 1, 0, 0, 16)]);
}

#[test]
fn merge_runs_on_to_a_fixpoint() {
    // four quarters, then the two halves they make, then the whole
    let out = aggregate(
        32,
        vec![v4(10, 0, 0, 192, 26), v4(10, 0, 0, 0, 26), v4(10, 0, 0, 128, 26), v4(10, 0, 0, 64, 26)],
    );
    assert_eq!(out, vec![v4(10, 0, 0, 0, 24)]);
    // a late block completes a chain of parents
    let out = aggregate(
        32,
        vec![v4(10, 0, 0, 0, 25), v4(10, 0, 0, 128, 26), v4(10, 0, 0, 192, 27), v4(10, 0, 0, 224, 27)],
    );
    assert_eq!(out, vec![v4(10, 0, 0, 0, 24)]);
}

#[test]
fn neighbours_that_are_no_siblings_stay() {
    let out = aggregate(32, vec![v4(10, 0, 1, 0, 24), v4(10, 0, 2, 0, 24)]);
    assert_eq!(out, vec![v4(10, 0, 1, 0, 24), v4(10, 0, 2, 0, 24)]);
    let out = aggregate(32, vec![v4(10, 0, 0, 0, 24), v4(10, 0, 1, 0, 24), v4(10, 0, 2, 0, 24)]);
    assert_eq!(out, vec![v4(10, 0, 0, 0, 23), v4(10, 0, 2, 0, 24)]);
}

#[test]
fn top_of_the_space() {
    let out = aggregate(32, vec![v4(255, 255, 255, 254, 32)]);
    assert_eq!(out, vec![v4(255, 255, 255, 254, 32)]);
    let out = aggregate(32, vec![v4(255, 255, 255, 255, 32), v4(255, 255, 255, 254, 32)]);
    assert_eq!(out, vec![v4(255, 255, 255, 254, 31)]);
    let out = aggregate(128, vec![Prefix { addr: u128::MAX - 1, len: 128 }]);
    assert_eq!(out, vec![Prefix { addr: u128::MAX - 1, len: 128 }]);
}

#[test]
fn the_passes_one_by_one() {
    let sorted = vec![v4(10, 0, 0, 0, 8), v4(10, 0, 0, 0, 24), v4(10, 1, 0, 0, 16), v4(11, 0, 0, 0, 8)];
    let kept = absorb(32, &sorted);
    assert_eq!(kept, vec![v4(10, 0, 0, 0, 8), v4(11, 0, 0, 0, 8)]);
    let out = merge(32, &kept);
    assert_eq!(out, vec![v4(10, 0, 0, 0, 7)]);
}

#[test]
fn prefix_arithmetic() {
    assert_eq!(host_mask(0), 0);
    assert_eq!(host_mask(8), 255);
    assert_eq!(host_mask(127), u128::MAX >> 1);
    assert_eq!(host_mask(128), u128::MAX);
    assert_eq!(network(32, 0xC633_647B, 24), 0xC633_6400);
    assert_eq!(network(32, 0xC633_647B, 32), 0xC633_647B);
    assert_eq!(network(32, 0xC633_647B, 0), 0);
    assert_eq!(network(128, u128::MAX, 0), 0);
    assert_eq!(network(128, u128::MAX, 1), 1 << 127);
    assert_eq!(network(128, u128::MAX, 128), u128::MAX);
    let a = v4(192, 0, 2, 0, 25);
    let b = v4(192, 0, 2, 128, 25);
    let c = v4(192, 0, 3, 0, 25);
    let p = v4(192, 0, 2, 0, 24);
    assert!(a.are_siblings(32, &b) && b.are_siblings(32, &a));
    assert!(!a.are_siblings(32, &a));
    assert!(!b.are_siblings(32, &c));
    assert!(!v4(0, 0, 0, 0, 0).are_siblings(32, &v4(0, 0, 0, 0, 0)));
    assert_eq!(a.parent(32), p);
    assert_eq!(b.parent(32), p);
    assert!(p.contains(32, &a) && p.contains(32, &b) && p.contains(32, &p));
    assert!(!a.contains(32, &p) && !a.contains(32, &b) && !p.contains(32, &c));
    assert_eq!(last(32, &p), 0xC000_02FF);
    assert_eq!(last(128, &Prefix { addr: 0, len: 0 }), u128::MAX);
}

#[test]
fn aggregating_twice_changes_nothing() {
    let mut numbers = Numbers(0x9E37_79B9_7F4A_7C15);
    for _ in 0..50 {
        let mut nets = Vec::new();
        for _ in 0..40 {
            let len = (numbers.next() % 9 + 20) as u8;
            let addr = (0x0A00_0000 | (numbers.next() & 0xFFFF)) as u128;
            nets.push(Prefix { addr: network(32, addr, len), len });
        }
        let once = aggregate(32, nets);
        let twice = aggregate(32, once.clone());
        assert_eq!(once, twice);
    }
}

#[test]
fn the_order_of_the_input_does_not_matter() {
    let mut numbers = Numbers(0x1234_5678_9ABC_DEF1);
    for _ in 0..50 {
        let mut nets = Vec::new();
        for _ in 0..30 {
            let len = (numbers.next() % 6 + 122) as u8;
            let addr = (0x2001_0db8u128 << 96) | (numbers.next() & 0xFF) as u128;
            nets.push(Prefix { addr: network(128, addr, len), len });
        }
        let first = aggregate(128, nets.clone());
        nets.reverse();
        let second = aggregate(128, nets.clone());
        let k = (numbers.next() % 30) as usize;
        nets.rotate_left(k);
        let third = aggregate(128, nets);
        assert_eq!(first, second);
        assert_eq!(first, third);
    }
}

fn check_minimal_cover(w: u8, nets: &[Prefix], out: &[Prefix], low: u128, high: u128) {
    for pair in out.windows(2) {
        assert!(last(w, &pair[0]) < pair[1].addr);
        assert!(!pair[0].are_siblings(w, &pair[1]));
    }
    for a in out {
        for b in out {
            if a != b {
                assert!(!a.contains(w, b));
                assert!(!a.are_siblings(w, b));
            }
        }
    }
    let mut x = low;
    loop {
        let before = nets.iter().any(|p| p.addr <= x && x <= last(w, p));
        let after = out.iter().any(|p| p.addr <= x && x <= last(w, p));
        assert_eq!(before, after, "address {}", x);
        if x == high {
            break;
        }
        x += 1;
    }
}

#[test]
fn output_is_minimal_and_covers_the_same() {
    let mut numbers = Numbers(0x0DDB_A11C_0FFE_E000);
    for _ in 0..40 {
        let mut nets = Vec::new();
        for _ in 0..25 {
            let len = (numbers.next() % 8 + 25) as u8;
            let addr = (0xC000_0200 | (numbers.next() & 0x1FF)) as u128;
            nets.push(Prefix { addr: network(32, addr, len), len });
        }
        let out = aggregate(32, nets.clone());
        check_minimal_cover(32, &nets, &out, 0xC000_01F0, 0xC000_0410);
    }
    let nets = vec![
        Prefix { addr: u128::MAX - 3, len: 126 },
        Prefix { addr: u128::MAX - 7, len: 127 },
        Prefix { addr: u128::MAX - 5, len: 128 },
    ];
    let out = aggregate(128, nets.clone());
    check_minimal_cover(128, &nets, &out, u128::MAX - 20, u128::MAX);
}

#[test]
fn agrees_with_ipnet_on_ipv4() {
    let mut numbers = Numbers(0xA5A5_5A5A_0F0F_F0F0);
    for round in 0..200 {
        let mut nets = Vec::new();
        let count = numbers.next() % 60;
        for _ in 0..count {
            let len = if round % 2 == 0 {
                (numbers.next() % 33) as u8
            } else {
                (numbers.next() % 10 + 23) as u8
            };
            let addr = if round % 2 == 0 {
                (numbers.next() & 0xFFFF_FFFF) as u128
            } else {
                (0xFFFF_F000 | (numbers.next() & 0xFFF)) as u128
            };
            nets.push(Prefix { addr: network(32, addr, len), len });
        }
        let theirs = ipnet::Ipv4Net::aggregate(&nets.iter().map(as_ipnet_v4).collect());
        let ours: Vec<ipnet::Ipv4Net> = aggregate(32, nets).iter().map(as_ipnet_v4).collect();
        assert_eq!(ours, theirs);
    }
}

#[test]
fn agrees_with_ipnet_on_ipv6() {
    let mut numbers = Numbers(0x0123_4567_89AB_CDEF);
    for round in 0..200 {
        let mut nets = Vec::new();
        let count = numbers.next() % 60;
        for _ in 0..count {
            let len = if round % 2 == 0 {
                (numbers.next() % 129) as u8
            } else {
                (numbers.next() % 10 + 119) as u8
            };
            let addr = if round % 2 == 0 {
                ((numbers.next() as u128) << 64) | numbers.next() as u128
            } else {
                (u128::MAX << 12) | (numbers.next() & 0xFFF) as u128
            };
            nets.push(Prefix { addr: network(128, addr, len), len });
        }
        let theirs = ipnet::Ipv6Net::aggregate(&nets.iter().map(as_ipnet_v6).collect());
        let ours: Vec<ipnet::Ipv6Net> = aggregate(128, nets).iter().map(as_ipnet_v6).collect();
        assert_eq!(ours, theirs);
    }
}

#[test]
fn sorting_by_address_then_length() {
    let a = v4(10, 0, 0, 0, 8);
    let b = v4(10, 0, 0, 0, 24);
    let c = v4(10, 0, 1, 0, 24);
    assert!(comes_first(&a, &b) && comes_first(&b, &c) && comes_first(&a, &a));
    assert!(!comes_first(&b, &a) && !comes_first(&c, &a));
    assert_eq!(sort(vec![]), vec![]);
    assert_eq!(sort(vec![c]), vec![c]);
    assert_eq!(sort(vec![c, b, a, b, c, a]), vec![a, a, b, b, c, c]);
    assert_eq!(merge_ordered(&vec![a, c], &vec![a, b]), vec![a, a, b, c]);
    let mut numbers = Numbers(0xFEED_FACE_CAFE_BEEF);
    for _ in 0..100 {
        let count = numbers.next() % 200;
        let mut nets: Vec<Prefix> = (0..count)
            .map(|_| Prefix { addr: (numbers.next() % 64) as u128, len: (numbers.next() % 8) as u8 })
            .collect();
        let ours = sort(nets.clone());
        nets.sort_by_key(|p| (p.addr, p.len));
        assert_eq!(ours, nets);
    }
}
