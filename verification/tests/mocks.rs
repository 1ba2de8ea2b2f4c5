use abstract_ns::blocking::BlockingResolver;
use abstract_ns::identity::IdentityResolver;
use abstract_ns::mocks::Mock;
use abstract_ns::net::IpAddr;

#[test]
fn a_table_answers_with_its_last_entry() {
    let mut ns = Mock::table(vec![
        ("example.com", IpAddr::v4(127, 0, 0, 1)),
        ("example.org", IpAddr::v4(127, 0, 0, 2)),
        ("example.com", IpAddr::v4(127, 0, 0, 3)),
    ]);
    assert_eq!(ns.resolve("example.com"), Ok(IpAddr::v4(127, 0, 0, 3)));
    assert_eq!(ns.resolve("example.org"), Ok(IpAddr::v4(127, 0, 0, 2)));
    assert_eq!(ns.resolve("example.net"), Err(()));
}

#[test]
fn a_function_answers_with_what_it_returns() {
    let mut ns = Mock::new(|n: &str| match n {
        "example.com" => Ok(IpAddr::v4(127, 0, 0, 1)),
        _ => Err("no such name"),
    });
    assert_eq!(ns.resolve("example.com"), Ok(IpAddr::v4(127, 0, 0, 1)));
    assert_eq!(ns.resolve("example.org"), Err("no such name"));
}

#[test]
fn the_identity_resolver_hands_the_name_back() {
    let mut ns = IdentityResolver::new();
    assert_eq!(ns.resolve(IpAddr::v4(10, 0, 0, 1)), Ok(IpAddr::v4(10, 0, 0, 1)));
    let mut texts = IdentityResolver::<&str>::new();
    assert_eq!(texts.resolve("example.com:80"), Ok("example.com:80"));
}

#[test]
fn a_table_answers_again_and_again() {
    let mut ns = Mock::table(vec![(7u64, "seven"), (8u64, "eight"), (7u64, "sept")]);
    for _ in 0..3 {
        assert_eq!(ns.resolve(7), Ok("sept"));
        assert_eq!(ns.resolve(8), Ok("eight"));
        assert_eq!(ns.resolve(9), Err(()));
    }
    let mut names = Mock::table(vec![("example.com", IpAddr::v4(127, 0, 0, 1))]);
    assert_eq!(names.resolve("example.com"), Ok(IpAddr::v4(127, 0, 0, 1)));
    assert_eq!(names.resolve("other.org"), Err(()));
    assert_eq!(names.resolve("example.com"), Ok(IpAddr::v4(127, 0, 0, 1)));
}
