use abstract_ns::dns::{bad_name, host_answer, host_poll, question, QueryEvent};
use abstract_ns::error::Error;
use abstract_ns::ip_list::IpList;
use abstract_ns::name::Name;
use abstract_ns::net::IpAddr;
use abstract_ns::poll::Async;

fn name(text: &str) -> Name {
    Name::from_str(text).unwrap()
}

#[test]
fn records_make_a_list() {
    let records = vec![Ok(IpAddr::v4(10, 0, 0, 2)), Ok(IpAddr::v4(10, 0, 0, 1))];
    assert_eq!(host_answer(records),
        Ok(IpList::from(vec![IpAddr::v4(10, 0, 0, 2), IpAddr::v4(10, 0, 0, 1)])));
    assert_eq!(host_answer(Vec::new()), Ok(IpList::from(Vec::new())));
}

#[test]
fn the_first_unreadable_record_fails_the_answer() {
    let records = vec![
        Ok(IpAddr::v4(10, 0, 0, 2)),
        Err("short record".to_string()),
        Ok(IpAddr::v4(10, 0, 0, 1)),
        Err("another".to_string()),
    ];
    assert_eq!(host_answer(records), Err(Error::TemporaryError("short record".to_string())));
}

#[test]
fn the_question_is_fully_qualified() {
    assert_eq!(question(&name("example.org")), "example.org.");
    assert_eq!(question(&name("example.org:80")), "example.org.");
    assert_eq!(bad_name(&name("example.org:80")),
        Error::InvalidName("example.org:80".to_string(),
            "domain::resolv::DNameBuf::from_str failed"));
}

#[test]
fn polls_of_a_query() {
    let n = name("example.org");
    assert_eq!(host_poll(&n, QueryEvent::NotReady), Ok(Async::NotReady));
    assert_eq!(host_poll(&n, QueryEvent::Answer(vec![Ok(IpAddr::v4(1, 2, 3, 4))])),
        Ok(Async::Ready(IpList::from(vec![IpAddr::v4(1, 2, 3, 4)]))));
    assert_eq!(host_poll(&n, QueryEvent::Answer(vec![Err("bad".to_string())])),
        Err(Error::TemporaryError("bad".to_string())));
    assert_eq!(host_poll(&n, QueryEvent::Unreadable("short".to_string())),
        Err(Error::TemporaryError("short".to_string())));
    assert_eq!(host_poll(&n, QueryEvent::Failed("timeout".to_string())),
        Err(Error::TemporaryError("timeout".to_string())));
    assert_eq!(host_poll(&n, QueryEvent::BadQuestion),
        Err(Error::InvalidName("example.org".to_string(), "resolv::error::Error::Question")));
}
