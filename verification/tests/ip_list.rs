use abstract_ns::addr::Address;
use abstract_ns::ip_list::IpList;
use abstract_ns::net::{IpAddr, SocketAddr};

fn ip(text: &str) -> IpAddr {
    IpAddr::parse(text).unwrap()
}

#[test]
fn test_from_iterator() {
    let ip_list: IpList = IpList::from(["127.0.0.1", "127.0.0.2"]
        .iter().map(|x| ip(x))
        .collect::<Vec<IpAddr>>());
    assert_eq!(ip_list,
        IpList::parse_list(&["127.0.0.1", "127.0.0.2"]).unwrap());
}

#[test]
fn test_from_vec() {
    let vec = ["127.0.0.1", "127.0.0.2"]
        .iter().map(|x| ip(x))
        .collect::<Vec<IpAddr>>();
    let list = IpList::from(vec);
    let mut seen = Vec::new();
    let mut it = list.iter();
    while let Some(x) = it.next() {
        seen.push(*x);
    }
    assert_eq!(seen, vec![ip("127.0.0.1"), ip("127.0.0.2")]);
    assert_eq!(list.len(), 2);
}

#[test]
fn with_port_keeps_the_order() {
    let list = IpList::parse_list(&["127.0.0.2", "127.0.0.1"]).unwrap();
    let a = list.with_port(443);
    assert_eq!(a.len(), 1);
    assert_eq!(a.at(0).addresses().collect(), vec![
        SocketAddr::parse("127.0.0.2:443").unwrap(),
        SocketAddr::parse("127.0.0.1:443").unwrap(),
    ]);
    assert_eq!(a, Address::parse_list(&["127.0.0.1:443", "127.0.0.2:443"]).unwrap());
    assert_eq!(a.at(0).pick_at(0), None);
}

#[test]
fn pick_one_of_a_list() {
    let empty = IpList::from(Vec::new());
    assert_eq!(empty.pick_one(), None);
    let one = IpList::parse_list(&["10.0.0.1"]).unwrap();
    for _ in 0..20 {
        assert_eq!(one.pick_one(), Some(ip("10.0.0.1")));
    }
    let three = IpList::parse_list(&["10.0.0.1", "10.0.0.2", "10.0.0.3"]).unwrap();
    let mut seen = [0u32; 3];
    for _ in 0..600 {
        let x = three.pick_one().unwrap();
        let i = [ip("10.0.0.1"), ip("10.0.0.2"), ip("10.0.0.3")]
            .iter().position(|a| *a == x).unwrap();
        seen[i] += 1;
    }
    assert!(seen.iter().all(|n| *n > 100), "{:?}", seen);
    assert_eq!(three.clone(), three);
}

#[test]
fn parse_list_of_hosts_reads_both_kinds() {
    let list = IpList::parse_list(&["::1", "10.0.0.1"]).unwrap();
    assert_eq!(list, IpList::from(vec![IpAddr::V6(1), IpAddr::v4(10, 0, 0, 1)]));
}

#[test]
fn parse_list_of_hosts_fails_on_a_bad_one() {
    assert!(IpList::parse_list(&["127.0.0.1", "127.0.0.1:80"]).is_err());
    assert_eq!(IpList::parse_list(&[]).unwrap().len(), 0);
}
