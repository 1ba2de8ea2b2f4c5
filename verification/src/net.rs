//! Addresses of hosts and of their ports, as numbers.
//!
//! An address is held the way it goes over the wire: the 32 bits of an IPv4
//! address or the 128 bits of an IPv6 address as one number, most
//! significant octet first. Two addresses are the same exactly when their
//! numbers are.
use vstd::prelude::*;
use crate::ipv6::{parse_v6, read_v6};
use crate::text::{
    all_digits, chars_of, decimal_value, find, is_digit, lemma_decimal_grows, lemma_until, split,
    until,
};

verus! {

/// The address of a host.
#[derive(Clone, Copy, Debug, PartialEq, Eq, Hash, Structural)]
pub enum IpAddr {
    /// An IPv4 address: `a.b.c.d` is `((a * 256 + b) * 256 + c) * 256 + d`.
    V4(u32),
    /// An IPv6 address, its first group in the highest bits.
    V6(u128),
}

/// The address of a port on a host.
#[derive(Clone, Copy, Debug, PartialEq, Eq, Hash, Structural)]
pub struct SocketAddr {
    /// The address of the host.
    pub ip: IpAddr,
    /// The port on the host.
    pub port: u16,
}

/// A string that is no address.
#[derive(Clone, Copy, Debug, PartialEq, Eq, Structural)]
pub struct AddrParseError;

/// The number of the IPv4 address `a.b.c.d`.
pub open spec fn v4_number(a: u8, b: u8, c: u8, d: u8) -> u32 {
    (((a as int * 256 + b as int) * 256 + c as int) * 256 + d as int) as u32
}

/// What one part of a dotted IPv4 address says: one to three digits, without
/// a zero in front of another digit, that write a number up to 255.
pub open spec fn octet(d: Seq<char>) -> Option<u8> {
    if 1 <= d.len() <= 3 && all_digits(d) && (d.len() == 1 || d[0] != '0') && decimal_value(d)
        <= 255 {
        Some(decimal_value(d) as u8)
    } else {
        None
    }
}

/// What the dotted text `s` says: four parts, each an octet.
pub open spec fn parse_v4(s: Seq<char>) -> Option<u32> {
    let parts = split(s, '.');
    if parts.len() == 4 && octet(parts[0]) is Some && octet(parts[1]) is Some && octet(
        parts[2],
    ) is Some && octet(parts[3]) is Some {
        Some(
            v4_number(
                octet(parts[0])->0,
                octet(parts[1])->0,
                octet(parts[2])->0,
                octet(parts[3])->0,
            ),
        )
    } else {
        None
    }
}

/// What the text `d` after the colon of a socket address says: digits, as
/// many as one likes, that write a number up to 65535.
pub open spec fn plain_port(d: Seq<char>) -> Option<u16> {
    if d.len() > 0 && all_digits(d) && decimal_value(d) <= u16::MAX {
        Some(decimal_value(d) as u16)
    } else {
        None
    }
}

/// What the text `s` says as the address of a host: a dotted IPv4 address,
/// or an IPv6 address.
pub open spec fn parse_ip(s: Seq<char>) -> Option<IpAddr> {
    match parse_v4(s) {
        Some(n) => Some(IpAddr::V4(n)),
        None => match parse_v6(s) {
            Some(n) => Some(IpAddr::V6(n)),
            None => None,
        },
    }
}

/// What the text `s` says as the address of a port: a dotted IPv4 address,
/// a colon and the port; or an IPv6 address in square brackets, a colon and
/// the port.
pub open spec fn parse_socket_addr(s: Seq<char>) -> Option<SocketAddr> {
    if s.len() > 0 && s[0] == '[' {
        let close = until(s, ']') as int;
        if close + 1 < s.len() && s[close + 1] == ':' {
            match (parse_v6(s.subrange(1, close)), plain_port(s.skip(close + 2))) {
                (Some(n), Some(port)) => Some(SocketAddr { ip: IpAddr::V6(n), port }),
                _ => None,
            }
        } else {
            None
        }
    } else {
        let n = until(s, ':') as int;
        if n >= s.len() {
            None
        } else {
            match (parse_v4(s.take(n)), plain_port(s.skip(n + 1))) {
                (Some(ip), Some(port)) => Some(SocketAddr { ip: IpAddr::V4(ip), port }),
                _ => None,
            }
        }
    }
}

/// The number that a run of octets writes in base 256.
spec fn base256(v: Seq<u8>) -> nat
    decreases v.len(),
{
    if v.len() == 0 {
        0
    } else {
        256 * base256(v.drop_last()) + v.last() as nat
    }
}

/// Four octets write the number of their IPv4 address.
proof fn lemma_base256_four(v: Seq<u8>)
    requires
        v.len() == 4,
    ensures
        base256(v) == v4_number(v[0], v[1], v[2], v[3]),
{
    let v3 = v.drop_last();
    let v2 = v3.drop_last();
    let v1 = v2.drop_last();
    let v0 = v1.drop_last();
    assert(v0.len() == 0);
    assert(base256(v0) == 0);
    assert(base256(v1) == v[0]);
    assert(base256(v2) == v[0] * 256 + v[1]);
    assert(base256(v3) == (v[0] * 256 + v[1]) * 256 + v[2]);
    assert(base256(v) == ((v[0] * 256 + v[1]) * 256 + v[2]) * 256 + v[3]);
}

/// Octets write a number below 256 to the power of their count.
proof fn lemma_base256_bound(v: Seq<u8>)
    requires
        v.len() <= 4,
    ensures
        base256(v) < pow256(v.len()),
    decreases v.len(),
{
    if v.len() > 0 {
        lemma_base256_bound(v.drop_last());
    }
}

/// 256 to the power of `n`.
spec fn pow256(n: nat) -> nat
    decreases n,
{
    if n == 0 {
        1
    } else {
        256 * pow256((n - 1) as nat)
    }
}

/// The powers of 256 up to 32 bits.
proof fn lemma_pow256()
    ensures
        pow256(0) == 1,
        pow256(1) == 256,
        pow256(2) == 65536,
        pow256(3) == 16777216,
        pow256(4) == 4294967296,
{
    reveal_with_fuel(pow256, 5);
}

/// A split has at least one piece.
pub proof fn lemma_split_len(s: Seq<char>, c: char)
    ensures
        split(s, c).len() >= 1,
{
}

/// Reads the digits that stand in `s` from `from` up to `to` as a number,
/// where they are digits and the number is at most `max`.
fn read_number(s: &[char], from: usize, to: usize, max: u32) -> (r: Option<u32>)
    requires
        from <= to <= s.len(),
        max <= 1000000,
    ensures
        r is Some <==> from < to && all_digits(s@.subrange(from as int, to as int))
            && decimal_value(s@.subrange(from as int, to as int)) <= max,
        r is Some ==> r->0 == decimal_value(s@.subrange(from as int, to as int)),
{
    let ghost d = s@.subrange(from as int, to as int);
    if from == to {
        return None;
    }
    let mut value: u32 = 0;
    let mut i: usize = from;
    while i < to
        invariant
            from <= i <= to <= s.len(),
            max <= 1000000,
            d == s@.subrange(from as int, to as int),
            forall|k: int| 0 <= k < i - from ==> is_digit(#[trigger] d[k]),
            value <= max,
            value == decimal_value(d.take(i - from)),
        decreases to - i,
    {
        let c = s[i];
        proof {
            assert(d[i - from] == c);
        }
        if !('0' <= c && c <= '9') {
            return None;
        }
        let digit: u32 = (c as u32) - ('0' as u32);
        let next: u32 = value * 10 + digit;
        proof {
            assert(d.take(i - from + 1).drop_last() =~= d.take(i - from));
            assert(d.take(i - from + 1).last() == c);
            assert(next == decimal_value(d.take(i - from + 1)));
        }
        i += 1;
        if next > max {
            proof {
                if all_digits(d) {
                    lemma_decimal_grows(d, i - from);
                }
            }
            return None;
        }
        value = next;
    }
    proof {
        assert(d.take(d.len() as int) =~= d);
    }
    Some(value)
}

/// Reads the part of a dotted address that stands in `s` from `from` up to
/// `to`.
fn read_octet(s: &[char], from: usize, to: usize) -> (r: Option<u8>)
    requires
        from <= to <= s.len(),
    ensures
        r == octet(s@.subrange(from as int, to as int)),
{
    let ghost d = s@.subrange(from as int, to as int);
    if to - from > 3 {
        return None;
    }
    if to - from > 1 && s[from] == '0' {
        proof {
            assert(d[0] == '0');
        }
        return None;
    }
    match read_number(s, from, to, 255) {
        Some(n) => {
            proof {
                assert(to - from > 1 ==> d[0] == s@[from as int]);
            }
            Some(n as u8)
        },
        None => None,
    }
}

/// Reads a dotted IPv4 address.
pub(crate) fn read_v4(s: &[char]) -> (r: Option<u32>)
    ensures
        r == parse_v4(s@),
{
    let ghost parts = split(s@, '.');
    let ghost mut done: Seq<Seq<char>> = Seq::empty();
    let ghost mut vals: Seq<u8> = Seq::empty();
    let mut value: u32 = 0;
    let mut count: usize = 0;
    let mut start: usize = 0;
    proof {
        assert(s@.skip(0) =~= s@);
        assert(done + split(s@.skip(0), '.') =~= parts);
        lemma_pow256();
    }
    loop
        invariant
            start <= s.len(),
            count <= 3,
            parts == split(s@, '.'),
            parts == done + split(s@.skip(start as int), '.'),
            done.len() == count,
            vals.len() == count,
            forall|i: int| 0 <= i < count ==> octet(#[trigger] done[i]) == Some(vals[i]),
            value == base256(vals),
        decreases s.len() - start,
    {
        let end = find(s, start, '.');
        let o = read_octet(s, start, end);
        let ghost t = s@.skip(start as int);
        let ghost n = end - start;
        let ghost piece = s@.subrange(start as int, end as int);
        proof {
            assert(t.take(n) =~= piece);
            lemma_split_len(t.skip(n + 1), '.');
            if n >= t.len() {
                assert(t =~= piece);
                assert(split(t, '.') =~= seq![piece]);
            } else {
                assert(t.skip(n + 1) =~= s@.skip(end + 1));
                assert(split(t, '.') =~= seq![piece] + split(s@.skip(end + 1), '.'));
            }
            assert(parts[count as int] == piece);
            assert(forall|i: int| 0 <= i < count ==> parts[i] == done[i]);
        }
        match o {
            None => {
                return None;
            },
            Some(b) => {
                proof {
                    lemma_base256_bound(vals);
                    lemma_pow256();
                    assert(vals.push(b).drop_last() =~= vals);
                    done = done.push(piece);
                    vals = vals.push(b);
                }
                value = value * 256 + (b as u32);
                count += 1;
                if end >= s.len() {
                    proof {
                        assert(parts =~= done);
                    }
                    if count == 4 {
                        proof {
                            lemma_base256_four(vals);
                        }
                        return Some(value);
                    } else {
                        return None;
                    }
                }
                if count == 4 {
                    proof {
                        lemma_split_len(s@.skip(end + 1), '.');
                        assert(parts.len() >= 5);
                    }
                    return None;
                }
                proof {
                    assert(parts =~= done + split(s@.skip(end + 1), '.'));
                }
                start = end + 1;
            },
        }
    }
}

impl IpAddr {
    /// The IPv4 address `a.b.c.d`.
    pub fn v4(a: u8, b: u8, c: u8, d: u8) -> (r: IpAddr)
        ensures
            r == IpAddr::V4(v4_number(a, b, c, d)),
    {
        let n: u32 = (((a as u32) * 256 + (b as u32)) * 256 + (c as u32)) * 256 + (d as u32);
        IpAddr::V4(n)
    }

    /// Reads the address of a host: four numbers with dots between them, or
    /// an IPv6 address.
    pub fn parse(s: &str) -> (r: Result<IpAddr, AddrParseError>)
        ensures
            match parse_ip(s@) {
                Some(ip) => r == Ok::<IpAddr, AddrParseError>(ip),
                None => r is Err,
            },
    {
        let chars = chars_of(s);
        match read_v4(chars.as_slice()) {
            Some(n) => Ok(IpAddr::V4(n)),
            None => match read_v6(chars.as_slice()) {
                Some(n) => Ok(IpAddr::V6(n)),
                None => Err(AddrParseError),
            },
        }
    }
}

impl SocketAddr {
    /// The address of `port` on the host `ip`.
    pub fn new(ip: IpAddr, port: u16) -> (r: SocketAddr)
        ensures
            r == (SocketAddr { ip, port }),
    {
        SocketAddr { ip, port }
    }

    /// The address of the host.
    pub fn ip(&self) -> (r: IpAddr)
        ensures
            r == self.ip,
    {
        self.ip
    }

    /// The port.
    pub fn port(&self) -> (r: u16)
        ensures
            r == self.port,
    {
        self.port
    }

    /// Reads the address of a port: a dotted IPv4 address, a colon and the
    /// port in decimal; or an IPv6 address in square brackets, a colon and
    /// the port.
    pub fn parse(s: &str) -> (r: Result<SocketAddr, AddrParseError>)
        ensures
            match parse_socket_addr(s@) {
                Some(a) => r == Ok::<SocketAddr, AddrParseError>(a),
                None => r is Err,
            },
    {
        let chars = chars_of(s);
        proof {
            assert(chars@.skip(0) =~= chars@);
        }
        if chars.len() > 0 && chars[0] == '[' {
            let close = find(chars.as_slice(), 0, ']');
            if close >= chars.len() || close + 1 >= chars.len() || chars[close + 1] != ':' {
                return Err(AddrParseError);
            }
            proof {
                lemma_until(chars@, ']');
                assert(s@.subrange(close + 2, s@.len() as int) =~= s@.skip(close + 2));
            }
            let host = vstd::slice::slice_subrange(chars.as_slice(), 1, close);
            return match read_v6(host) {
                None => Err(AddrParseError),
                Some(n) => match read_number(chars.as_slice(), close + 2, chars.len(), 65535) {
                    None => Err(AddrParseError),
                    Some(port) => Ok(SocketAddr { ip: IpAddr::V6(n), port: port as u16 }),
                },
            };
        }
        let colon = find(chars.as_slice(), 0, ':');
        if colon >= chars.len() {
            return Err(AddrParseError);
        }
        let host = vstd::slice::slice_subrange(chars.as_slice(), 0, colon);
        proof {
            assert(host@ =~= s@.take(colon as int));
            assert(s@.subrange(colon + 1, s@.len() as int) =~= s@.skip(colon + 1));
        }
        match read_v4(host) {
            None => Err(AddrParseError),
            Some(n) => match read_number(chars.as_slice(), colon + 1, chars.len(), 65535) {
                None => Err(AddrParseError),
                Some(port) => Ok(SocketAddr { ip: IpAddr::V4(n), port: port as u16 }),
            },
        }
    }
}

} // verus!
