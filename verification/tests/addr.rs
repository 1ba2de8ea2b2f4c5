use abstract_ns::addr::{union, Address, Builder, WeightedSet};
use abstract_ns::net::{IpAddr, SocketAddr};

fn sa(text: &str) -> SocketAddr {
    SocketAddr::parse(text).unwrap()
}

fn address(texts: &[&str]) -> Address {
    let addrs: Vec<SocketAddr> = texts.iter().map(|x| sa(x)).collect();
    Address::from(&addrs[..])
}

fn levels(a: &Address) -> Vec<Vec<SocketAddr>> {
    let mut r = Vec::new();
    let mut it = a.iter();
    while let Some(set) = it.next() {
        r.push(set.addresses().collect());
    }
    r
}

fn sorted(v: Vec<SocketAddr>) -> Vec<(u128, u16)> {
    let mut r: Vec<(u128, u16)> = v
        .into_iter()
        .map(|a| match a.ip() {
            IpAddr::V4(n) => (n as u128, a.port()),
            IpAddr::V6(n) => (n, a.port()),
        })
        .collect();
    r.sort();
    r
}

#[test]
fn addr_test_iter() {
    let ab = address(&["127.0.0.1:1234", "10.0.0.1:3456"]);
    let r = levels(&ab);
    assert_eq!(r, vec![vec![sa("127.0.0.1:1234"), sa("10.0.0.1:3456")]]);
}

#[test]
fn addr_from_socket_addr() {
    let a = Address::from(sa("127.0.0.1:1234"));
    assert_eq!(levels(&a), vec![vec![sa("127.0.0.1:1234")]]);
}

#[test]
fn addr_from_ip() {
    let a = Address::from((IpAddr::parse("127.0.0.1").unwrap(), 1234));
    assert_eq!(levels(&a), vec![vec![sa("127.0.0.1:1234")]]);
}

#[test]
fn addr_from_slice() {
    let a = Address::from(&[sa("127.0.0.1:1234")][..]);
    assert_eq!(levels(&a), vec![vec![sa("127.0.0.1:1234")]]);
}

#[test]
fn address_test_iter() {
    let ab = Address::from_addresses(&[sa("127.0.0.1:1234"), sa("10.0.0.1:3456")]);
    let mut r = Vec::new();
    let mut it = ab.iter();
    while let Some(set) = it.next() {
        let mut inner = Vec::new();
        let mut addrs = set.addresses();
        while let Some(a) = addrs.next() {
            inner.push(a);
        }
        r.push(inner);
    }
    assert_eq!(r, vec![vec![sa("127.0.0.1:1234"), sa("10.0.0.1:3456")]]);
}

#[test]
fn address_from_socket_addr() {
    assert_eq!(Address::from(sa("127.0.0.1:1234")).len(), 1);
}

#[test]
fn address_from_ip() {
    assert_eq!(Address::from((IpAddr::parse("127.0.0.1").unwrap(), 1234)).len(), 1);
}

#[test]
fn address_from_slice() {
    assert_eq!(Address::from(&[sa("127.0.0.1:1234")][..]).len(), 1);
}

#[test]
fn test_eq() {
    let a1 = address(&["127.0.0.1:1234", "10.0.0.1:3456"]);
    let a2 = address(&["127.0.0.1:1234", "10.0.0.1:3456"]);
    assert_eq!(a1, a2);
}

#[test]
fn test_eq_reverse() {
    let a1 = address(&["127.0.0.1:1234", "10.0.0.1:3456"]);
    let a2 = address(&["10.0.0.1:3456", "127.0.0.1:1234"]);
    assert_eq!(a1, a2);
}

#[test]
fn test_ne() {
    let a1 = address(&["127.0.0.1:1234", "10.0.0.1:5555"]);
    let a2 = address(&["10.0.0.1:3456", "127.0.0.1:1234"]);
    assert_ne!(a1, a2);
}

#[test]
fn test_diff() {
    let a1 = address(&["127.0.0.1:1234", "10.0.0.1:3456"]);
    let a2 = address(&["127.0.0.2:1234", "10.0.0.1:3456"]);

    let l1 = a1.iter().next().unwrap();
    let l2 = a2.iter().next().unwrap();

    assert_eq!(l1.compare_addresses(&l2),
        (vec![sa("127.0.0.1:1234")], vec![sa("127.0.0.2:1234")]));
}

#[test]
fn addr_test_union() {
    let a1 = Address::parse_list(&["127.0.0.1:1234", "10.0.0.1:3456"]).unwrap();
    let a2 = Address::parse_list(&["127.0.0.2:1234", "10.0.0.1:3456"]).unwrap();

    let a = union(&[a1, a2]);
    assert_eq!(sorted(a.at(0).addresses().collect()), sorted(vec![
        sa("127.0.0.1:1234"),
        sa("127.0.0.2:1234"),
        sa("10.0.0.1:3456"),
    ]));
    // check for no duplicates
    assert_eq!(a.at(0).addresses().collect().len(), 3);
}

#[test]
fn test_addresses_at_lifetime() {
    let items = vec![Address::parse_list(&["127.0.0.1:8080", "172.0.0.1:8010"]).unwrap()];
    let walks: Vec<_> = items.into_iter().map(|a| a.addresses_at(0)).collect();
    let mut total = 0usize;
    for mut walk in walks {
        while let Some(_) = walk.next() {
            total += 1;
        }
    }
    assert_eq!(2usize, total);
}

#[test]
fn union_keeps_the_order_of_first_sight_and_weight_zero() {
    let mut b = Builder::new();
    b.add_addresses(&[(5, sa("10.0.0.2:1")), (7, sa("10.0.0.1:1")), (1, sa("10.0.0.2:1"))])
        .add_addresses(&[(1, sa("10.9.9.9:9"))]);
    let a1 = b.into_address();
    let a2 = address(&["10.0.0.3:1", "10.0.0.1:1"]);
    let u = union(&[a1, a2]);
    assert_eq!(levels(&u), vec![vec![sa("10.0.0.2:1"), sa("10.0.0.1:1"), sa("10.0.0.3:1")]]);
    // every number picks nothing: all weights are zero
    assert_eq!(u.at(0).pick_at(0), None);
    assert!(u.pick_one().is_some());
}

#[test]
fn union_of_nothing_is_one_empty_level() {
    let u = union(&[]);
    assert_eq!(u.len(), 1);
    assert_eq!(u.at(0).len(), 0);
    assert_eq!(u.pick_one(), None);
    let e = Builder::new().into_address();
    assert_eq!(union(&[e.clone(), e]).at(0).len(), 0);
}

#[test]
fn pick_one_of_a_single_entry_is_that_entry() {
    let a = Address::from(sa("127.0.0.1:1234"));
    for _ in 0..50 {
        assert_eq!(a.pick_one(), Some(sa("127.0.0.1:1234")));
    }
    let mut b = Builder::new();
    b.add_addresses(&[(1, sa("127.0.0.1:80"))]);
    let w = b.into_address();
    for _ in 0..50 {
        assert_eq!(w.pick_one(), Some(sa("127.0.0.1:80")));
    }
}

#[test]
fn pick_one_of_an_empty_address_is_none() {
    let a = Builder::new().into_address();
    assert_eq!(a.len(), 0);
    assert_eq!(a.pick_one(), None);
    assert_eq!(a.at(0).pick_one(), None);
    assert_eq!(a.at(7).len(), 0);
}

#[test]
fn pick_at_walks_the_weights() {
    let a = sa("10.0.0.1:1");
    let b = sa("10.0.0.2:2");
    let c = sa("10.0.0.3:3");
    let mut builder = Builder::new();
    builder.add_addresses(&[(1, a), (0, c), (3, b)]);
    let addr = builder.into_address();
    let set = addr.at(0);
    assert_eq!(set.pick_at(0), Some(a));
    assert_eq!(set.pick_at(1), Some(b));
    assert_eq!(set.pick_at(2), Some(b));
    assert_eq!(set.pick_at(3), Some(b));
    assert_eq!(set.pick_at(4), None);
    assert_eq!(set.pick_at(u64::MAX), None);
}

#[test]
fn weighted_pick_follows_the_weights() {
    let a = sa("10.0.0.1:1");
    let b = sa("10.0.0.2:2");
    let mut builder = Builder::new();
    builder.add_addresses(&[(1, a), (3, b)]);
    let addr = builder.into_address();
    let mut na = 0u32;
    let mut nb = 0u32;
    for _ in 0..4000 {
        match addr.pick_one() {
            Some(x) if x == a => na += 1,
            Some(x) if x == b => nb += 1,
            other => panic!("picked {:?}", other),
        }
    }
    // B comes about three times as often as A
    assert!(na > 700 && na < 1300, "a: {}", na);
    assert!(nb > 2700 && nb < 3300, "b: {}", nb);
}

#[test]
fn zero_weights_pick_every_entry() {
    let addr = address(&["10.0.0.1:1", "10.0.0.2:2", "10.0.0.3:3"]);
    let mut seen = [0u32; 3];
    for _ in 0..600 {
        let x = addr.pick_one().unwrap();
        let i = [sa("10.0.0.1:1"), sa("10.0.0.2:2"), sa("10.0.0.3:3")]
            .iter().position(|a| *a == x).unwrap();
        seen[i] += 1;
    }
    assert!(seen.iter().all(|n| *n > 100), "{:?}", seen);
}

#[test]
fn pick_one_looks_at_level_zero_only() {
    let mut builder = Builder::new();
    builder.add_addresses(&[(2, sa("10.0.0.1:1"))]);
    builder.add_addresses(&[(1000, sa("10.0.0.2:2"))]);
    let addr = builder.into_address();
    for _ in 0..50 {
        assert_eq!(addr.pick_one(), Some(sa("10.0.0.1:1")));
    }
}

#[test]
fn builder_drops_empty_levels() {
    let mut builder = Builder::new();
    builder.add_addresses(&[]);
    builder.add_addresses(&[(1, sa("10.0.0.1:1"))]);
    builder.add_addresses(&[]);
    builder.add_addresses(&[(2, sa("10.0.0.2:2")), (3, sa("10.0.0.3:3"))]);
    let addr = builder.into_address();
    assert_eq!(addr.len(), 2);
    assert_eq!(levels(&addr), vec![
        vec![sa("10.0.0.1:1")],
        vec![sa("10.0.0.2:2"), sa("10.0.0.3:3")],
    ]);
    assert_eq!(addr.at(1).len(), 2);
    assert_eq!(addr.at(2).len(), 0);
}

#[test]
fn equality_counts_weights_and_repeats() {
    let a = sa("10.0.0.1:1");
    let b = sa("10.0.0.2:2");
    let make = |items: &[(u64, SocketAddr)]| {
        let mut builder = Builder::new();
        builder.add_addresses(items);
        builder.into_address()
    };
    assert_eq!(make(&[(1, a), (2, b)]), make(&[(2, b), (1, a)]));
    assert_ne!(make(&[(1, a), (2, b)]), make(&[(1, a), (3, b)]));
    assert_ne!(make(&[(1, a), (1, a), (2, b)]), make(&[(1, a), (2, b), (2, b)]));
    assert_eq!(make(&[(1, a), (1, a), (2, b)]), make(&[(1, a), (2, b), (1, a)]));
    assert_ne!(make(&[(1, a)]), make(&[(1, a), (1, a)]));
    let one = make(&[(1, a)]);
    let mut two = Builder::new();
    two.add_addresses(&[(1, a)]);
    two.add_addresses(&[(1, b)]);
    assert_ne!(one, two.into_address());
    let s1: WeightedSet = one.at(0);
    assert!(s1 == one.at(0));
    assert!(s1.same_as(&one.at(0)));
}

#[test]
fn compare_addresses_ignores_weights_and_names_nothing_twice() {
    let a = sa("10.0.0.1:1");
    let b = sa("10.0.0.2:2");
    let c = sa("10.0.0.3:3");
    let mut x = Builder::new();
    x.add_addresses(&[(1, a), (2, b), (3, a), (4, c)]);
    let x = x.into_address();
    let mut y = Builder::new();
    y.add_addresses(&[(9, b)]);
    let y = y.into_address();
    assert_eq!(x.at(0).compare_addresses(&y.at(0)), (vec![a, c], vec![]));
    assert_eq!(y.at(0).compare_addresses(&x.at(0)), (vec![], vec![a, c]));
    assert_eq!(x.at(0).compare_addresses(&x.at(0)), (vec![], vec![]));
}

#[test]
fn parse_list_reads_both_kinds_of_address() {
    let a = Address::parse_list(&["[::1]:80", "127.0.0.1:80"]).unwrap();
    assert_eq!(levels(&a), vec![vec![
        SocketAddr::new(IpAddr::V6(1), 80),
        SocketAddr::new(IpAddr::v4(127, 0, 0, 1), 80),
    ]]);
}

#[test]
fn parse_list_fails_on_a_bad_address() {
    assert!(Address::parse_list(&["127.0.0.1:80", "nope"]).is_err());
    assert!(Address::parse_list(&["127.0.0.1"]).is_err());
    assert_eq!(levels(&Address::parse_list(&[]).unwrap()), vec![Vec::<SocketAddr>::new()]);
}
