use abstract_ns::poll::Async;
use abstract_ns::{Address, Error, IpAddr, IpList, Name, SocketAddr};
use abstract_ns::{HostSubscribe, Resolve, ResolveHost, Subscribe};

#[derive(Debug)]
struct HostMock;

#[derive(Debug)]
struct SvcMock;

#[derive(Debug)]
struct Mock;

impl ResolveHost for Mock {
    type FutureHost = Result<IpList, Error>;
    fn resolve_host(&self, _name: &Name) -> Self::FutureHost {
        Ok(vec![IpAddr::parse("127.0.0.1").unwrap()].into())
    }
}

impl ResolveHost for HostMock {
    type FutureHost = Result<IpList, Error>;
    fn resolve_host(&self, _name: &Name) -> Self::FutureHost {
        Ok(vec![IpAddr::parse("127.0.0.2").unwrap()].into())
    }
}

impl Resolve for SvcMock {
    type Future = Result<Address, Error>;
    fn resolve(&self, _name: &Name) -> Self::Future {
        Ok([SocketAddr::parse("127.0.0.2:443").unwrap()][..].into())
    }
}

impl Resolve for Mock {
    type Future = Result<Address, Error>;
    fn resolve(&self, _name: &Name) -> Self::Future {
        Ok([SocketAddr::parse("127.0.0.1:443").unwrap()][..].into())
    }
}

#[test]
fn test_mock_host() {
    assert_eq!(
        Mock.resolve_host(&"localhost".parse().unwrap()).unwrap(),
        IpList::parse_list(&["127.0.0.1"]).unwrap()
    );
    assert_eq!(
        HostMock.resolve_host(&"localhost".parse().unwrap()).unwrap(),
        IpList::parse_list(&["127.0.0.2"]).unwrap()
    );
}

#[test]
fn test_mock_srv() {
    assert_eq!(
        Mock.resolve(&"localhost".parse().unwrap()).unwrap(),
        Address::parse_list(&["127.0.0.1:443"]).unwrap()
    );
    assert_eq!(
        SvcMock.resolve(&"localhost".parse().unwrap()).unwrap(),
        Address::parse_list(&["127.0.0.2:443"]).unwrap()
    );
}

#[test]
fn test_null_pasthrough() {
    assert_eq!(
        SvcMock.null_host_resolver()
        .resolve(&"localhost".parse().unwrap()).unwrap(),
        Address::parse_list(&["127.0.0.2:443"]).unwrap()
    );
    assert_eq!(
        HostMock.null_service_resolver()
        .resolve_host(&"localhost".parse().unwrap()).unwrap(),
        IpList::parse_list(&["127.0.0.2"]).unwrap()
    );
}

#[test]
#[should_panic(expected="NameNotFound")]
fn test_null_service() {
    HostMock.null_service_resolver()
    .resolve(&"localhost".parse().unwrap()).unwrap();
}

#[test]
#[should_panic(expected="NameNotFound")]
fn test_null_host() {
    SvcMock.null_host_resolver()
    .resolve_host(&"localhost".parse().unwrap()).unwrap();
}

fn all_traits<T: Resolve + ResolveHost + Subscribe + HostSubscribe>(_: T) { }

#[test]
fn test_mock_sub() {
    let mut stream = Mock.frozen_subscriber()
        .subscribe(&"localhost".parse().unwrap());
    let answer = stream.future.take().unwrap();
    stream.future = Some(Ok(Address::parse_list(&["127.0.0.9:9"]).unwrap()));
    assert_eq!(
        stream.poll(answer.map(Async::Ready)),
        Ok(Async::Ready(Some(Address::parse_list(&["127.0.0.1:443"]).unwrap())))
    );
    assert_eq!(stream.future, None);

    let mut hosts = Mock.frozen_subscriber()
        .subscribe_host(&"localhost".parse().unwrap());
    let answer = hosts.future.clone().unwrap();
    assert_eq!(
        hosts.poll(answer.map(Async::Ready)),
        Ok(Async::Ready(Some(IpList::parse_list(&["127.0.0.1"]).unwrap())))
    );
    assert_eq!(hosts.poll(Ok::<Async<IpList>, Error>(Async::NotReady)), Ok(Async::NotReady));
}

#[test]
fn test_traits() {
    all_traits(Mock.frozen_subscriber());
    all_traits(HostMock.null_service_resolver().frozen_subscriber());
    all_traits(SvcMock.null_host_resolver().frozen_subscriber());
}

#[test]
fn frozen_subscribers_resolve_as_their_resolver_does() {
    let frozen = Mock.frozen_subscriber();
    assert_eq!(
        frozen.resolve(&"localhost".parse().unwrap()).unwrap(),
        Address::parse_list(&["127.0.0.1:443"]).unwrap()
    );
    assert_eq!(
        frozen.resolve_host(&"localhost".parse().unwrap()).unwrap(),
        IpList::parse_list(&["127.0.0.1"]).unwrap()
    );
    let hosts = HostMock.frozen_host_subscriber();
    assert_eq!(
        hosts.resolve_host(&"localhost".parse().unwrap()).unwrap(),
        IpList::parse_list(&["127.0.0.2"]).unwrap()
    );
    let service = SvcMock.frozen_service_subscriber();
    assert_eq!(
        service.resolve(&"localhost".parse().unwrap()).unwrap(),
        Address::parse_list(&["127.0.0.2:443"]).unwrap()
    );
}

#[test]
fn shared_resolvers_resolve_as_their_resolver_does() {
    let shared = std::sync::Arc::new(Mock);
    assert_eq!(
        shared.resolve(&"localhost".parse().unwrap()).unwrap(),
        Address::parse_list(&["127.0.0.1:443"]).unwrap()
    );
    assert_eq!(
        shared.resolve_host(&"localhost".parse().unwrap()).unwrap(),
        IpList::parse_list(&["127.0.0.1"]).unwrap()
    );
    let frozen = std::sync::Arc::new(Mock.frozen_subscriber());
    assert!(frozen.subscribe(&"localhost".parse().unwrap()).future.is_some());
    assert!(frozen.subscribe_host(&"localhost".parse().unwrap()).future.is_some());
}
