use abstract_ns::name::{namecheck, Error, Name, PortError};

fn name_str(src: &str) -> Name {
    Name::from_str(src).unwrap()
}

fn name_err(src: &str) -> String {
    Name::from_str(src).unwrap_err().to_string()
}

/// The name that holds `host` and no port.
fn is_bare(name: &Name, host: &str) -> bool {
    name.host() == host && name.as_ref() == host && name.default_port().is_none()
}

#[test]
fn bare_name() {
    assert!(is_bare(&name_str("localhost"), "localhost"));
    assert!(is_bare(&name_str("host.name.org"), "host.name.org"));
    assert!(is_bare(&name_str("name.root."), "name.root."));
}

#[test]
fn name_with_numbers() {
    assert!(is_bare(&name_str("x1"), "x1"));
    assert!(is_bare(&name_str("x1.y1"), "x1.y1"));
    assert!(is_bare(&name_str("1.2.x"), "1.2.x"));
}

#[test]
fn name_with_dashes() {
    assert!(is_bare(&name_str("x-a"), "x-a"));
    assert!(is_bare(&name_str("x-a.y-b"), "x-a.y-b"));
}

#[test]
fn display() {
    assert_eq!(name_str("localhost").to_string(), "localhost");
    assert_eq!(name_str("name.example.org.").to_string(), "name.example.org.");
    assert_eq!(name_str("name.example.org").to_string(), "name.example.org");
}

#[test]
fn dash() {
    assert_eq!(name_err("-name"),
        "any part of name can\'t start or end with dash");
    assert_eq!(name_err("name-"),
        "any part of name can\'t start or end with dash");
    assert_eq!(name_err("x.-y"),
        "any part of name can\'t start or end with dash");
    assert_eq!(name_err("x-.y"),
        "any part of name can\'t start or end with dash");
    assert_eq!(name_err("x-.-y"),
        "any part of name can\'t start or end with dash");
    assert_eq!(name_err("-xx.yy-"),
        "any part of name can\'t start or end with dash");
}

#[test]
fn two_dots() {
    assert_eq!(name_err("name..name"),
        "name can\'t start with dot and can\'t have subsequent dots");
    assert_eq!(name_err(".name.org"),
        "name can\'t start with dot and can\'t have subsequent dots");
    assert_eq!(name_err("..name.org"),
        "name can\'t start with dot and can\'t have subsequent dots");
    assert_eq!(name_err("name.org.."),
        "name can\'t start with dot and can\'t have subsequent dots");
}

#[test]
fn invalid_char() {
    assert_eq!(Name::from_str("Name").unwrap_err(), Error::InvalidChar);
    assert_eq!(Name::from_str("na me").unwrap_err(), Error::InvalidChar);
    assert_eq!(Name::from_str("n\u{e4}me.org").unwrap_err(), Error::InvalidChar);
    assert_eq!(name_err("a/b"),
        "only ascii numbers and letters, dash `-`, underscore `_` and dot `.` are supported in names");
}

#[test]
fn empty_name_is_a_dot_error() {
    assert_eq!(Name::from_str("").unwrap_err(), Error::DotError);
    assert_eq!(Name::from_str(".").unwrap_err(), Error::DotError);
}

#[test]
fn first_bad_label_decides() {
    assert_eq!(Name::from_str("a..B").unwrap_err(), Error::DotError);
    assert_eq!(Name::from_str("A..b").unwrap_err(), Error::InvalidChar);
    assert_eq!(Name::from_str("-a.B").unwrap_err(), Error::InvalidPrefixSuffix);
    assert_eq!(Name::from_str("-A.b").unwrap_err(), Error::InvalidChar);
}

#[test]
fn name_with_port() {
    let n = name_str("example.org:8080");
    assert_eq!(n.host(), "example.org");
    assert_eq!(n.default_port(), Some(8080));
    assert_eq!(n.to_string(), "example.org:8080");
    assert_eq!(name_str("localhost:0").default_port(), Some(0));
    assert_eq!(name_str("localhost:65535").default_port(), Some(65535));
    assert_eq!(name_str("localhost:+80").default_port(), Some(80));
    assert_eq!(name_str("localhost:0080").to_string(), "localhost:80");
}

#[test]
fn bad_ports() {
    assert_eq!(Name::from_str("a:").unwrap_err(), Error::InvalidPort(PortError::Empty));
    assert_eq!(Name::from_str("a:+").unwrap_err(), Error::InvalidPort(PortError::InvalidDigit));
    assert_eq!(Name::from_str("a:-1").unwrap_err(), Error::InvalidPort(PortError::InvalidDigit));
    assert_eq!(Name::from_str("a:8o").unwrap_err(), Error::InvalidPort(PortError::InvalidDigit));
    assert_eq!(Name::from_str("a:1:2").unwrap_err(), Error::InvalidPort(PortError::InvalidDigit));
    assert_eq!(Name::from_str("a:65536").unwrap_err(), Error::InvalidPort(PortError::Overflow));
    assert_eq!(Name::from_str("a:99999999999999999999").unwrap_err(),
        Error::InvalidPort(PortError::Overflow));
    // the first character that cannot be taken decides
    assert_eq!(Name::from_str("a:99999x").unwrap_err(), Error::InvalidPort(PortError::Overflow));
    assert_eq!(Name::from_str("a:65536x").unwrap_err(), Error::InvalidPort(PortError::Overflow));
    assert_eq!(Name::from_str("a:9x9999").unwrap_err(),
        Error::InvalidPort(PortError::InvalidDigit));
    assert_eq!(Name::from_str("a:6553x").unwrap_err(),
        Error::InvalidPort(PortError::InvalidDigit));
    assert_eq!(Name::from_str("a:+99999").unwrap_err(), Error::InvalidPort(PortError::Overflow));
    assert_eq!(Name::from_str("a:x99999").unwrap_err(),
        Error::InvalidPort(PortError::InvalidDigit));
    assert_eq!(name_err("a:x"),
        "default port number is invalid: invalid digit found in string");
    assert_eq!(Name::from_str("a..b:x").unwrap_err(), Error::DotError);
}

#[test]
fn written_names_read_back() {
    for src in ["localhost", "name.root.", "x-a.y_b:443", "1.2.x:1"] {
        let n = name_str(src);
        assert_eq!(name_str(&n.to_string()), n);
        assert_eq!(n.to_string(), src);
    }
}

#[test]
fn namecheck_judges_hosts() {
    assert!(namecheck("host.name.org").is_ok());
    assert!(namecheck("name.root.").is_ok());
    assert_eq!(namecheck("host:80").unwrap_err(), Error::InvalidChar);
    assert_eq!(namecheck("name.org..").unwrap_err(), Error::DotError);
}

#[test]
fn from_arc_shares_the_text() {
    let arc: std::sync::Arc<str> = std::sync::Arc::from("host.name.org");
    let n = Name::from_arc(&arc).unwrap();
    assert!(std::sync::Arc::ptr_eq(&arc, &n.inner()));
    assert_eq!(n.as_ref(), &*arc);
    assert_eq!(n.default_port(), None);
    assert_eq!(n, name_str("host.name.org"));
    let dotted: std::sync::Arc<str> = std::sync::Arc::from("name.root.");
    assert!(std::sync::Arc::ptr_eq(&dotted, &Name::from_arc(&dotted).unwrap().inner()));
    let bad: std::sync::Arc<str> = std::sync::Arc::from("-x");
    assert_eq!(Name::from_arc(&bad).unwrap_err(), Error::InvalidPrefixSuffix);
}

#[test]
fn from_arc_succeeds_exactly_where_namecheck_does() {
    for text in ["localhost", "host.name.org", "name.root.", "x-a.y_b", "", ".", "a..b",
                 "-a", "a-", "Name", "a:1", "a:x", "host.name.org:53", "a:", ":1"] {
        let arc: std::sync::Arc<str> = std::sync::Arc::from(text);
        match (Name::from_arc(&arc), namecheck(text)) {
            (Ok(n), Ok(())) => {
                assert_eq!(n.as_ref(), text);
                assert_eq!(n.default_port(), None);
                assert!(std::sync::Arc::ptr_eq(&arc, &n.inner()));
            }
            (Err(e), Err(expected)) => assert_eq!(e, expected, "{:?}", text),
            (got, expected) => panic!("{:?}: {:?} but {:?}", text, got, expected),
        }
        assert_eq!(&*arc, text);
    }
}

#[test]
fn from_arc_reads_no_port() {
    for text in ["a:1", "a:x", "host.name.org:53"] {
        let arc: std::sync::Arc<str> = std::sync::Arc::from(text);
        assert_eq!(Name::from_arc(&arc).unwrap_err(), Error::InvalidChar, "{:?}", text);
    }
    // a name with a port comes from a string, and its host can be shared on
    let n = name_str("host.name.org:53");
    let host = n.inner();
    assert_eq!(&*host, "host.name.org");
    let again = Name::from_arc(&host).unwrap();
    assert_eq!(again.as_ref(), "host.name.org");
    assert_eq!(again.default_port(), None);
}

#[test]
fn parse_goes_through_from_str() {
    let n: Name = "example.org:25".parse().unwrap();
    assert_eq!(n.clone(), name_str("example.org:25"));
    assert!("Example.org".parse::<Name>().is_err());
}
