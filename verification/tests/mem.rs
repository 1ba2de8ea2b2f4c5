use abstract_ns::addr::Address;
use abstract_ns::error::Error;
use abstract_ns::mem::{MemResolver, MemSubscription};
use abstract_ns::name::Name;
use abstract_ns::net::{IpAddr, SocketAddr};
use abstract_ns::poll::Async;
use abstract_ns::resolver::{Resolve, Subscribe};
use abstract_ns::routing::{RouterBuilder, RouterFuture, RouterStream};

#[test]
fn static_stream() {
    let mut s = MemSubscription(
        Some(SocketAddr::parse("127.0.0.1:7879").unwrap().into()));
    let a = if let Async::Ready(Some(x)) = s.poll() {
        x
    } else {
        panic!("No element returned");
    };
    assert_eq!(a.at(0).addresses().collect(),
        vec![SocketAddr::parse("127.0.0.1:7879").unwrap()]);
    if let Async::NotReady = s.poll() {
    } else {
        panic!("another element in stream?");
    }
}

#[test]
fn resolves_what_it_holds() {
    let mut r = MemResolver::new();
    assert!(!r.contains_name("localhost"));
    r.add_host("localhost", IpAddr::v4(127, 0, 0, 1));
    r.add_host("gone", IpAddr::v4(10, 0, 0, 1));
    r.add_host("gone", IpAddr::v4(10, 0, 0, 2));
    assert!(r.contains_name("localhost"));
    assert!(!r.contains_name("localhost."));
    assert!(!r.contains_name("local"));
    assert_eq!(r.resolve(&Name::from_str("localhost:80").unwrap()),
        Ok(Address::from(SocketAddr::parse("127.0.0.1:80").unwrap())));
    assert_eq!(r.resolve(&Name::from_str("gone:1").unwrap()),
        Ok(Address::from((IpAddr::v4(10, 0, 0, 2), 1))));
    assert_eq!(r.resolve(&Name::from_str("localhost").unwrap()),
        Err(Error::NoDefaultPort));
    assert_eq!(r.resolve(&Name::from_str("other:80").unwrap()),
        Err(Error::NameNotFound));
    assert_eq!(r.resolve(&Name::from_str("other").unwrap()),
        Err(Error::NoDefaultPort));
}

#[test]
fn subscribes_to_what_it_holds() {
    let mut r = MemResolver::new();
    r.add_host("localhost", IpAddr::v4(127, 0, 0, 1));
    let mut s = r.subscribe(&Name::from_str("localhost:80").unwrap());
    assert_eq!(s.poll(),
        Async::Ready(Some(Address::from(SocketAddr::parse("127.0.0.1:80").unwrap()))));
    assert_eq!(s.poll(), Async::NotReady);
    assert_eq!(s.poll(), Async::NotReady);
    let mut none = r.subscribe(&Name::from_str("other:80").unwrap());
    assert_eq!(none.poll(), Async::NotReady);
    let mut no_port = r.subscribe(&Name::from_str("localhost").unwrap());
    assert_eq!(no_port.poll(), Async::NotReady);
}

#[test]
fn a_mem_resolver_fills_the_slot_of_a_router() {
    let mut inner = MemResolver::new();
    inner.add_host("db.internal", IpAddr::v4(10, 1, 1, 1));
    let mut b = RouterBuilder::new();
    b.add_suffix("internal", inner);
    let router = b.into_resolver();
    match Resolve::resolve(&router, &Name::from_str("db.internal:5432").unwrap()) {
        RouterFuture::Pending(Ok(a)) => {
            assert_eq!(a, Address::from(SocketAddr::parse("10.1.1.1:5432").unwrap()));
        }
        other => panic!("{:?}", other),
    }
    match Resolve::resolve(&router, &Name::from_str("web.internal:80").unwrap()) {
        RouterFuture::Pending(Err(Error::NameNotFound)) => {}
        other => panic!("{:?}", other),
    }
    match Subscribe::subscribe(&router, &Name::from_str("db.internal:5432").unwrap()) {
        RouterStream::Delegated(mut s) => assert!(s.poll().is_ready()),
        other => panic!("{:?}", other),
    }
}
