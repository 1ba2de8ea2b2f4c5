//! IPv6 addresses as they are written.
//!
//! An address is eight groups of up to four hexadecimal digits with colons
//! between them. One run of groups that are zero may be left out, which
//! leaves two colons in a row, and the last two groups may be written as a
//! dotted IPv4 address.
use vstd::prelude::*;
use crate::net::{parse_v4, read_v4};
use crate::text::{find, split};

verus! {

/// Whether `c` is a hexadecimal digit, in either case.
pub open spec fn is_hex(c: char) -> bool {
    ('0' <= c && c <= '9') || ('a' <= c && c <= 'f') || ('A' <= c && c <= 'F')
}

/// The number that the hexadecimal digit `c` stands for.
pub open spec fn hex_value(c: char) -> nat
    recommends
        is_hex(c),
{
    if '0' <= c && c <= '9' {
        (c as u32 - '0' as u32) as nat
    } else if 'a' <= c && c <= 'f' {
        (c as u32 - 'a' as u32 + 10) as nat
    } else {
        (c as u32 - 'A' as u32 + 10) as nat
    }
}

/// Whether every character of `d` is a hexadecimal digit.
pub open spec fn all_hex(d: Seq<char>) -> bool {
    forall|i: int| 0 <= i < d.len() ==> is_hex(#[trigger] d[i])
}

/// The number that the hexadecimal digits `d` write, most significant first.
pub open spec fn hex_number(d: Seq<char>) -> nat
    decreases d.len(),
{
    if d.len() == 0 {
        0
    } else {
        16 * hex_number(d.drop_last()) + hex_value(d.last())
    }
}

/// What one group of an address says: one to four hexadecimal digits.
pub open spec fn hex_group(d: Seq<char>) -> Option<u16> {
    if 1 <= d.len() <= 4 && all_hex(d) {
        Some(hex_number(d) as u16)
    } else {
        None
    }
}

/// Where `c` first stands twice in a row in `s`; the length of `s` where it
/// never does.
pub open spec fn first_pair(s: Seq<char>, c: char) -> nat
    decreases s.len(),
{
    if s.len() < 2 {
        s.len()
    } else if s[0] == c && s[1] == c {
        0
    } else {
        1 + first_pair(s.drop_first(), c)
    }
}

/// Whether each of `parts` is a group.
pub open spec fn all_groups(parts: Seq<Seq<char>>) -> bool {
    forall|i: int| 0 <= i < parts.len() ==> hex_group(#[trigger] parts[i]) is Some
}

/// What parts that are groups say.
pub open spec fn group_values(parts: Seq<Seq<char>>) -> Seq<u16> {
    Seq::new(parts.len(), |i: int| hex_group(parts[i])->0)
}

/// The two groups that hold the IPv4 address with the number `n`.
pub open spec fn v4_groups(n: u32) -> Seq<u16> {
    seq![(n / 65536) as u16, (n % 65536) as u16]
}

/// What a run of groups with colons between them says; nothing where a part
/// is no group. The empty text is a run of no groups. With `dotted`, the last
/// part may be a dotted IPv4 address, which stands for two groups.
pub open spec fn groups_of(text: Seq<char>, dotted: bool) -> Option<Seq<u16>> {
    let parts = split(text, ':');
    let last = parts.last();
    if text.len() == 0 {
        Some(Seq::empty())
    } else if !all_groups(parts.drop_last()) {
        None
    } else if hex_group(last) is Some {
        Some(group_values(parts.drop_last()).push(hex_group(last)->0))
    } else if dotted && parse_v4(last) is Some {
        Some(group_values(parts.drop_last()) + v4_groups(parse_v4(last)->0))
    } else {
        None
    }
}

/// The number that groups write in base 65536, the first group in the
/// highest place.
pub open spec fn groups_number(g: Seq<u16>) -> nat
    decreases g.len(),
{
    if g.len() == 0 {
        0
    } else {
        65536 * groups_number(g.drop_last()) + g.last() as nat
    }
}

/// `n` groups that are zero.
pub open spec fn zero_groups(n: int) -> Seq<u16> {
    Seq::new(n as nat, |i: int| 0u16)
}

/// The eight groups that the text `s` says. Without two colons in a row,
/// the text gives all eight. Otherwise the groups before the two colons
/// start the address, the groups after them end it, and the groups between
/// are zero, at least one of them. A dotted IPv4 address may stand at the
/// very end only.
pub open spec fn v6_groups(s: Seq<char>) -> Option<Seq<u16>> {
    let gap = first_pair(s, ':') as int;
    if gap >= s.len() {
        match groups_of(s, true) {
            Some(g) => if g.len() == 8 {
                Some(g)
            } else {
                None
            },
            None => None,
        }
    } else {
        match (groups_of(s.take(gap), false), groups_of(s.skip(gap + 2), true)) {
            (Some(head), Some(tail)) => if head.len() + tail.len() <= 7 {
                Some(head + zero_groups(8 - head.len() - tail.len()) + tail)
            } else {
                None
            },
            _ => None,
        }
    }
}

/// The number of the IPv6 address that the text `s` says.
pub open spec fn parse_v6(s: Seq<char>) -> Option<u128> {
    match v6_groups(s) {
        Some(g) => Some(groups_number(g) as u128),
        None => None,
    }
}

/// What the text says has eight groups.
pub proof fn lemma_v6_groups(s: Seq<char>)
    ensures
        v6_groups(s) is Some ==> v6_groups(s)->0.len() == 8,
{
}

/// One step of `first_pair`, at any place of the string.
proof fn lemma_first_pair_step(s: Seq<char>, c: char, j: int)
    requires
        0 <= j <= s.len(),
    ensures
        first_pair(s.skip(j), c) as int == if j + 2 > s.len() {
            s.len() - j
        } else if s[j] == c && s[j + 1] == c {
            0int
        } else {
            1 + first_pair(s.skip(j + 1), c) as int
        },
{
    if j + 2 <= s.len() {
        assert(s.skip(j).drop_first() =~= s.skip(j + 1));
        assert(s.skip(j)[0] == s[j]);
        assert(s.skip(j)[1] == s[j + 1]);
    }
}

/// Where `c` first stands twice in a row in `s`.
fn find_pair(s: &[char], c: char) -> (at: usize)
    ensures
        at == first_pair(s@, c),
        at <= s.len(),
        at < s.len() ==> at + 2 <= s.len() && s@[at as int] == c && s@[at + 1] == c,
{
    let mut at: usize = 0;
    proof {
        assert(s@.skip(0) =~= s@);
    }
    while at < s.len()
        invariant
            at <= s.len(),
            first_pair(s@, c) == at + first_pair(s@.skip(at as int), c),
        decreases s.len() - at,
    {
        proof {
            lemma_first_pair_step(s@, c, at as int);
        }
        if at + 1 < s.len() && s[at] == c && s[at + 1] == c {
            return at;
        }
        if at + 1 >= s.len() {
            return s.len();
        }
        at += 1;
    }
    proof {
        lemma_first_pair_step(s@, c, at as int);
    }
    at
}

/// Sixteen to the power of `n`.
spec fn pow16(n: nat) -> nat
    decreases n,
{
    if n == 0 {
        1
    } else {
        16 * pow16((n - 1) as nat)
    }
}

/// Hexadecimal digits write a number below sixteen to the power of their
/// count.
proof fn lemma_hex_bound(d: Seq<char>)
    requires
        all_hex(d),
    ensures
        hex_number(d) < pow16(d.len()),
    decreases d.len(),
{
    if d.len() > 0 {
        assert(is_hex(d.last()));
        assert(all_hex(d.drop_last())) by {
            assert forall|i: int| 0 <= i < d.drop_last().len() implies is_hex(
                #[trigger] d.drop_last()[i],
            ) by {
                assert(d.drop_last()[i] == d[i]);
            }
        }
        lemma_hex_bound(d.drop_last());
    }
}

/// Reads the group that stands in `s` from `from` up to `to`.
fn read_group(s: &[char], from: usize, to: usize) -> (r: Option<u16>)
    requires
        from <= to <= s.len(),
    ensures
        r == hex_group(s@.subrange(from as int, to as int)),
{
    let ghost d = s@.subrange(from as int, to as int);
    if from == to || to - from > 4 {
        return None;
    }
    let mut value: u32 = 0;
    let mut i: usize = from;
    proof {
        reveal_with_fuel(pow16, 6);
    }
    while i < to
        invariant
            from <= i <= to <= s.len(),
            to - from <= 4,
            d == s@.subrange(from as int, to as int),
            forall|k: int| 0 <= k < i - from ==> is_hex(#[trigger] d[k]),
            value == hex_number(d.take(i - from)),
            value < pow16((i - from) as nat),
        decreases to - i,
    {
        let c = s[i];
        proof {
            assert(d[i - from] == c);
            reveal_with_fuel(pow16, 6);
        }
        let digit: u32 = if '0' <= c && c <= '9' {
            (c as u32) - ('0' as u32)
        } else if 'a' <= c && c <= 'f' {
            (c as u32) - ('a' as u32) + 10
        } else if 'A' <= c && c <= 'F' {
            (c as u32) - ('A' as u32) + 10
        } else {
            return None;
        };
        proof {
            assert(d.take(i - from + 1).drop_last() =~= d.take(i - from));
            assert(d.take(i - from + 1).last() == c);
            assert(digit == hex_value(c));
        }
        value = value * 16 + digit;
        i += 1;
    }
    proof {
        assert(d.take(d.len() as int) =~= d);
        reveal_with_fuel(pow16, 6);
    }
    Some(value as u16)
}

/// Reads a run of groups with colons between them.
fn read_groups(s: &[char], dotted: bool) -> (r: Option<Vec<u16>>)
    ensures
        match groups_of(s@, dotted) {
            Some(g) => r is Some && r->0@ == g,
            None => r is None,
        },
{
    let mut groups: Vec<u16> = Vec::new();
    if s.len() == 0 {
        return Some(groups);
    }
    let ghost parts = split(s@, ':');
    let ghost mut done: Seq<Seq<char>> = Seq::empty();
    let mut start: usize = 0;
    proof {
        assert(s@.skip(0) =~= s@);
        assert(done + split(s@.skip(0), ':') =~= parts);
    }
    loop
        invariant
            start <= s.len(),
            s.len() > 0,
            parts == split(s@, ':'),
            parts == done + split(s@.skip(start as int), ':'),
            groups@.len() == done.len(),
            forall|i: int| 0 <= i < done.len() ==> hex_group(#[trigger] done[i]) == Some(groups@[i]),
        decreases s.len() - start,
    {
        let end = find(s, start, ':');
        let ghost t = s@.skip(start as int);
        let ghost n = end - start;
        let ghost piece = s@.subrange(start as int, end as int);
        proof {
            assert(t.take(n) =~= piece);
            crate::net::lemma_split_len(t.skip(n + 1), ':');
            if n >= t.len() {
                assert(t =~= piece);
                assert(split(t, ':') =~= seq![piece]);
                assert(parts =~= done.push(piece));
                assert(parts.drop_last() =~= done);
            } else {
                assert(t.skip(n + 1) =~= s@.skip(end + 1));
                assert(split(t, ':') =~= seq![piece] + split(s@.skip(end + 1), ':'));
                assert(parts =~= done.push(piece) + split(s@.skip(end + 1), ':'));
            }
            assert(parts[done.len() as int] == piece);
            assert(forall|i: int| 0 <= i < done.len() ==> parts[i] == done[i]);
        }
        let group = read_group(s, start, end);
        if end >= s.len() {
            proof {
                assert(group_values(done) =~= groups@);
            }
            match group {
                Some(g) => {
                    groups.push(g);
                    return Some(groups);
                },
                None => {
                    if !dotted {
                        return None;
                    }
                    let text = vstd::slice::slice_subrange(s, start, end);
                    match read_v4(text) {
                        Some(number) => {
                            groups.push((number / 65536) as u16);
                            groups.push((number % 65536) as u16);
                            proof {
                                assert(groups@ =~= group_values(done) + v4_groups(number));
                            }
                            return Some(groups);
                        },
                        None => {
                            return None;
                        },
                    }
                },
            }
        }
        match group {
            Some(g) => {
                groups.push(g);
            },
            None => {
                proof {
                    assert(parts.drop_last()[done.len() as int] == piece);
                }
                return None;
            },
        }
        proof {
            done = done.push(piece);
        }
        start = end + 1;
    }
}

/// Sixty-five thousand five hundred and thirty-six to the power of `n`.
spec fn pow65536(n: nat) -> nat
    decreases n,
{
    if n == 0 {
        1
    } else {
        65536 * pow65536((n - 1) as nat)
    }
}

/// Groups write a number below 65536 to the power of their count.
proof fn lemma_groups_bound(g: Seq<u16>)
    ensures
        groups_number(g) < pow65536(g.len()),
    decreases g.len(),
{
    if g.len() > 0 {
        lemma_groups_bound(g.drop_last());
    }
}

/// Eight groups fill 128 bits, and fewer fill less.
proof fn lemma_pow65536()
    ensures
        pow65536(8) == 0x1_0000_0000_0000_0000_0000_0000_0000_0000,
        forall|n: nat| n <= 7 ==> 65536 * #[trigger] pow65536(n) <= 0x1_0000_0000_0000_0000_0000_0000_0000_0000,
{
    reveal_with_fuel(pow65536, 10);
    assert(pow65536(0) == 1);
    assert(pow65536(1) == 0x1_0000);
    assert(pow65536(2) == 0x1_0000_0000);
    assert(pow65536(3) == 0x1_0000_0000_0000);
    assert(pow65536(4) == 0x1_0000_0000_0000_0000);
    assert(pow65536(5) == 0x1_0000_0000_0000_0000_0000);
    assert(pow65536(6) == 0x1_0000_0000_0000_0000_0000_0000);
    assert(pow65536(7) == 0x1_0000_0000_0000_0000_0000_0000_0000);
    assert(pow65536(8) == 0x1_0000_0000_0000_0000_0000_0000_0000_0000);
    assert forall|n: nat| n <= 7 implies 65536 * #[trigger] pow65536(n)
        <= 0x1_0000_0000_0000_0000_0000_0000_0000_0000 by {
        if n == 0 {
        } else if n == 1 {
        } else if n == 2 {
        } else if n == 3 {
        } else if n == 4 {
        } else if n == 5 {
        } else if n == 6 {
        } else {
            assert(n == 7);
        }
    }
}

/// Reads an IPv6 address.
pub(crate) fn read_v6(s: &[char]) -> (r: Option<u128>)
    ensures
        r == parse_v6(s@),
{
    let gap = find_pair(s, ':');
    let mut all: Vec<u16> = Vec::new();
    if gap >= s.len() {
        match read_groups(s, true) {
            Some(groups) => {
                if groups.len() != 8 {
                    return None;
                }
                all = groups;
            },
            None => {
                return None;
            },
        }
    } else {
        let head_text = vstd::slice::slice_subrange(s, 0, gap);
        let tail_text = vstd::slice::slice_subrange(s, gap + 2, s.len());
        proof {
            assert(head_text@ =~= s@.take(gap as int));
            assert(tail_text@ =~= s@.skip(gap + 2));
        }
        let head = match read_groups(head_text, false) {
            Some(groups) => groups,
            None => {
                return None;
            },
        };
        let tail = match read_groups(tail_text, true) {
            Some(groups) => groups,
            None => {
                return None;
            },
        };
        if head.len() > 7 || tail.len() > 7 - head.len() {
            return None;
        }
        let zeros: usize = 8 - head.len() - tail.len();
        let mut i: usize = 0;
        while i < head.len()
            invariant
                i <= head.len(),
                all@ == head@.take(i as int),
            decreases head.len() - i,
        {
            all.push(head[i]);
            proof {
                assert(all@ =~= head@.take(i + 1));
            }
            i += 1;
        }
        let mut i: usize = 0;
        while i < zeros
            invariant
                i <= zeros,
                all@ == head@ + zero_groups(i as int),
            decreases zeros - i,
        {
            proof {
                assert(head@.take(head@.len() as int) =~= head@);
                assert(head@ + zero_groups(0) =~= head@);
            }
            all.push(0);
            proof {
                assert(all@ =~= head@ + zero_groups(i + 1));
            }
            i += 1;
        }
        let mut i: usize = 0;
        while i < tail.len()
            invariant
                i <= tail.len(),
                all@ == head@ + zero_groups(zeros as int) + tail@.take(i as int),
            decreases tail.len() - i,
        {
            all.push(tail[i]);
            proof {
                assert(all@ =~= head@ + zero_groups(zeros as int) + tail@.take(i + 1));
            }
            i += 1;
        }
        proof {
            assert(tail@.take(tail@.len() as int) =~= tail@);
        }
    }
    let mut number: u128 = 0;
    let mut i: usize = 0;
    proof {
        assert(all@.take(0) =~= Seq::<u16>::empty());
    }
    while i < 8
        invariant
            i <= 8,
            all@.len() == 8,
            number == groups_number(all@.take(i as int)),
        decreases 8 - i,
    {
        proof {
            lemma_groups_bound(all@.take(i as int));
            lemma_pow65536();
            assert(all@.take(i + 1).drop_last() =~= all@.take(i as int));
            assert(all@.take(i + 1).last() == all@[i as int]);
        }
        number = number * 65536 + (all[i] as u128);
        i += 1;
    }
    proof {
        assert(all@.take(8) =~= all@);
    }
    Some(number)
}

} // verus!
