use abstract_ns::net::{AddrParseError, IpAddr, SocketAddr};

#[test]
fn dotted_addresses_are_numbers() {
    assert_eq!(IpAddr::parse("127.0.0.1"), Ok(IpAddr::V4(0x7f00_0001)));
    assert_eq!(IpAddr::parse("0.0.0.0"), Ok(IpAddr::V4(0)));
    assert_eq!(IpAddr::parse("255.255.255.255"), Ok(IpAddr::V4(u32::MAX)));
    assert_eq!(IpAddr::parse("10.20.30.40"), Ok(IpAddr::v4(10, 20, 30, 40)));
    assert_eq!(IpAddr::v4(1, 2, 3, 4), IpAddr::V4(0x0102_0304));
}

#[test]
fn bad_dotted_addresses() {
    for text in ["", "1", "1.2.3", "1.2.3.4.5", "1.2.3.", ".1.2.3", "1..2.3", "256.1.1.1",
                 "1.2.3.04", "01.2.3.4", "1.2.3.4 ", "a.b.c.d", "1.2.3.-4", "1.2.3.1000",
                 "+1.2.3.4"] {
        assert_eq!(IpAddr::parse(text), Err(AddrParseError), "{:?}", text);
    }
}

#[test]
fn socket_addresses() {
    let a = SocketAddr::parse("127.0.0.1:1234").unwrap();
    assert_eq!(a.ip(), IpAddr::v4(127, 0, 0, 1));
    assert_eq!(a.port(), 1234);
    assert_eq!(a, SocketAddr::new(IpAddr::V4(0x7f00_0001), 1234));
    assert_eq!(SocketAddr::parse("10.0.0.1:0").unwrap().port(), 0);
    assert_eq!(SocketAddr::parse("10.0.0.1:65535").unwrap().port(), 65535);
    assert_eq!(SocketAddr::parse("10.0.0.1:00080").unwrap().port(), 80);
}

#[test]
fn bad_socket_addresses() {
    for text in ["", "127.0.0.1", "127.0.0.1:", ":80", "127.0.0.1:65536", "127.0.0.1:+80",
                 "127.0.0.1:8o", "127.0.0.1:80:80", "127.0.1:80", "localhost:80"] {
        assert_eq!(SocketAddr::parse(text), Err(AddrParseError), "{:?}", text);
    }
}

#[test]
fn ipv6_addresses_are_numbers() {
    assert_eq!(IpAddr::parse("::"), Ok(IpAddr::V6(0)));
    assert_eq!(IpAddr::parse("::1"), Ok(IpAddr::V6(1)));
    assert_eq!(IpAddr::parse("1::"), Ok(IpAddr::V6(1 << 112)));
    assert_eq!(IpAddr::parse("2001:db8::1"),
        Ok(IpAddr::V6(0x2001_0db8_0000_0000_0000_0000_0000_0001)));
    assert_eq!(IpAddr::parse("1:2:3:4:5:6:7:8"),
        Ok(IpAddr::V6(0x0001_0002_0003_0004_0005_0006_0007_0008)));
    assert_eq!(IpAddr::parse("ffff:ffff:ffff:ffff:ffff:ffff:ffff:ffff"),
        Ok(IpAddr::V6(u128::MAX)));
    assert_eq!(IpAddr::parse("FE80::AbCd"),
        Ok(IpAddr::V6(0xfe80_0000_0000_0000_0000_0000_0000_abcd)));
    assert_eq!(IpAddr::parse("0001:02:003:4::"),
        Ok(IpAddr::V6(0x0001_0002_0003_0004_0000_0000_0000_0000)));
    assert_eq!(IpAddr::parse("1:2:3:4:5:6:7::"),
        Ok(IpAddr::V6(0x0001_0002_0003_0004_0005_0006_0007_0000)));
    assert_eq!(IpAddr::parse("::2:3:4:5:6:7:8"),
        Ok(IpAddr::V6(0x0000_0002_0003_0004_0005_0006_0007_0008)));
    assert_eq!(IpAddr::parse("1:2:3::6:7:8"),
        Ok(IpAddr::V6(0x0001_0002_0003_0000_0000_0006_0007_0008)));
}

#[test]
fn ipv6_addresses_may_end_dotted() {
    assert_eq!(IpAddr::parse("::ffff:1.2.3.4"), Ok(IpAddr::V6(0xffff_0102_0304)));
    assert_eq!(IpAddr::parse("::1.2.3.4"), Ok(IpAddr::V6(0x0102_0304)));
    assert_eq!(IpAddr::parse("1:2:3:4:5:6:255.254.253.252"),
        Ok(IpAddr::V6(0x0001_0002_0003_0004_0005_0006_fffe_fdfc)));
    assert_eq!(IpAddr::parse("1:2:3:4:5::1.2.3.4"),
        Ok(IpAddr::V6(0x0001_0002_0003_0004_0005_0000_0102_0304)));
    assert_eq!(IpAddr::parse("64:ff9b::192.0.2.33"),
        Ok(IpAddr::V6(0x0064_ff9b_0000_0000_0000_0000_c000_0221)));
}

#[test]
fn bad_ipv6_addresses() {
    for text in [":", ":::", "1::2::3", "1:2:3:4:5:6:7", "1:2:3:4:5:6:7:8:9", "12345::",
                 "g::", "1:2:3:4:5:6:7:8::", "::1:2:3:4:5:6:7:8", "1::2:3:4:5:6:7:8",
                 "1:2:3:4:5:6:7::8", "::1.2.3.4:5", "1.2.3.4::", "1:2:3:4:5:6:7:1.2.3.4",
                 "1:2:3:4:5:1.2.3.4", "1:2:3:4:5:6::1.2.3.4", "[::1]", " ::1", "::1 ",
                 "::1%1", ":1", "1:", "1:2:3:4:5:6:7:", ":1:2:3:4:5:6:7", "::01.2.3.4",
                 "::1.2.3", "1::2:"] {
        assert_eq!(IpAddr::parse(text), Err(AddrParseError), "{:?}", text);
    }
}

#[test]
fn ipv6_socket_addresses() {
    let a = SocketAddr::parse("[::1]:80").unwrap();
    assert_eq!(a, SocketAddr::new(IpAddr::V6(1), 80));
    assert_eq!(SocketAddr::parse("[2001:db8::1]:65535"),
        Ok(SocketAddr::new(IpAddr::V6(0x2001_0db8_0000_0000_0000_0000_0000_0001), 65535)));
    assert_eq!(SocketAddr::parse("[::ffff:10.0.0.1]:0"),
        Ok(SocketAddr::new(IpAddr::V6(0xffff_0a00_0001), 0)));
    for text in ["[::1]", "[::1]80", "[::1]:", "::1:80", "[::1%1]:80", "[1.2.3.4]:80",
                 "[::1]:80x", "[[::1]]:80", "[::1:80", "[]:80", "[::1]:65536", "[::1] :80",
                 "1:2:3:4:5:6:7:8:80"] {
        assert_eq!(SocketAddr::parse(text), Err(AddrParseError), "{:?}", text);
    }
}
