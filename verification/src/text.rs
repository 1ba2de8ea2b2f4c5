//! Characters in and out of strings, and decimal numbers.
use vstd::prelude::*;
use vstd::string::StringExecFns;
use vstd::std_specs::iter::IteratorSpec;
use std::sync::Arc;

verus! {

/// The characters of `s`, one by one.
pub fn chars_of(s: &str) -> (v: Vec<char>)
    ensures
        v@ == s@,
{
    let mut v: Vec<char> = Vec::new();
    for c in it: s.chars()
        invariant
            it.seq() == s@,
            v@ == s@.take(it.index() as int),
    {
        v.push(c);
        proof {
            assert(v@ =~= s@.take(it.index() + 1));
        }
    }
    proof {
        assert(v@ =~= s@);
    }
    v
}

/// `Arc::clone`: one more owner of the same value.
#[verifier::external_body]
pub(crate) fn share<T: ?Sized>(a: &Arc<T>) -> (r: Arc<T>)
    ensures
        r == *a,
{
    Arc::clone(a)
}

/// `Arc::<str>::from` a string slice: a shared copy of the same text.
#[verifier::external_body]
pub(crate) fn shared_str(s: &str) -> (a: Arc<str>)
    ensures
        (*a)@ == s@,
{
    Arc::from(s)
}

/// What `{:?}` writes for a string of these characters: the characters
/// between double quotes, with those escaped that `Debug` for `str` escapes.
pub uninterp spec fn debug_text(s: Seq<char>) -> Seq<char>;

/// `format!("{:?}", s)`: the string as `Debug` writes it. The result has
/// its name, `debug_text`, and nothing more is claimed of it.
#[verifier::external_body]
pub(crate) fn quoted(s: &str) -> (r: String)
    ensures
        r@ == debug_text(s@),
{
    format!("{:?}", s)
}

/// Whether two slices hold the same characters.
pub fn same_chars(a: &[char], b: &[char]) -> (r: bool)
    ensures
        r == (a@ == b@),
{
    if a.len() != b.len() {
        return false;
    }
    let mut i: usize = 0;
    while i < a.len()
        invariant
            i <= a.len(),
            a.len() == b.len(),
            forall|k: int| 0 <= k < i ==> a@[k] == b@[k],
        decreases a.len() - i,
    {
        if a[i] != b[i] {
            return false;
        }
        i += 1;
    }
    proof {
        assert(a@ =~= b@);
    }
    true
}

/// Whether `c` is one of the ten decimal digits.
pub open spec fn is_digit(c: char) -> bool {
    '0' <= c && c <= '9'
}

/// The number that the digit `c` stands for.
pub open spec fn digit_value(c: char) -> nat
    recommends
        is_digit(c),
{
    (c as u32 - '0' as u32) as nat
}

/// Whether every character of `d` is a decimal digit.
pub open spec fn all_digits(d: Seq<char>) -> bool {
    forall|i: int| 0 <= i < d.len() ==> is_digit(#[trigger] d[i])
}

/// The number that the decimal digits `d` write, most significant first.
pub open spec fn decimal_value(d: Seq<char>) -> nat
    decreases d.len(),
{
    if d.len() == 0 {
        0
    } else {
        10 * decimal_value(d.drop_last()) + digit_value(d.last())
    }
}

/// The digit that writes `n`, for `n` below ten.
pub open spec fn digit_char(n: nat) -> char
    recommends
        n < 10,
{
    (n + '0' as u32) as char
}

/// `n` written in decimal, without leading zeros.
pub open spec fn decimal_digits(n: nat) -> Seq<char>
    decreases n,
{
    if n < 10 {
        seq![digit_char(n)]
    } else {
        decimal_digits(n / 10).push(digit_char(n % 10))
    }
}

/// Writing a number and reading it back gives the number.
pub proof fn lemma_decimal_round_trip(n: nat)
    ensures
        all_digits(decimal_digits(n)),
        decimal_digits(n).len() > 0,
        decimal_value(decimal_digits(n)) == n,
    decreases n,
{
    if n < 10 {
        let d = decimal_digits(n);
        assert(d.drop_last() =~= Seq::<char>::empty());
        assert(decimal_value(d.drop_last()) == 0);
        assert(d.last() == digit_char(n));
    } else {
        lemma_decimal_round_trip(n / 10);
        let d = decimal_digits(n);
        assert(d.drop_last() =~= decimal_digits(n / 10));
        assert(d.last() == digit_char(n % 10));
    }
}

/// How many decimal digits stand at the start of `d`.
pub open spec fn leading_digits(d: Seq<char>) -> nat
    decreases d.len(),
{
    if d.len() == 0 || !is_digit(d[0]) {
        0
    } else {
        1 + leading_digits(d.drop_first())
    }
}

/// The leading digits are digits, and what follows them is none.
pub proof fn lemma_leading_digits(d: Seq<char>)
    ensures
        leading_digits(d) <= d.len(),
        all_digits(d.take(leading_digits(d) as int)),
        leading_digits(d) < d.len() ==> !is_digit(d[leading_digits(d) as int]),
    decreases d.len(),
{
    if d.len() == 0 || !is_digit(d[0]) {
    } else {
        let t = d.drop_first();
        lemma_leading_digits(t);
        let n = leading_digits(d) as int;
        assert forall|i: int| 0 <= i < d.take(n).len() implies is_digit(#[trigger] d.take(n)[i]) by {
            if i > 0 {
                assert(d.take(n)[i] == t.take(n - 1)[i - 1]);
            }
        }
        if n < d.len() {
            assert(d[n] == t[n - 1]);
        }
    }
}

/// Where digits stand up to a place and none stands at it, the leading
/// digits end there.
pub proof fn lemma_leading_digits_at(d: Seq<char>, i: int)
    requires
        0 <= i <= d.len(),
        forall|k: int| 0 <= k < i ==> is_digit(#[trigger] d[k]),
        i == d.len() || !is_digit(d[i]),
    ensures
        leading_digits(d) == i,
    decreases i,
{
    if i > 0 {
        let t = d.drop_first();
        assert(is_digit(d[0]));
        assert forall|k: int| 0 <= k < i - 1 implies is_digit(#[trigger] t[k]) by {
            assert(t[k] == d[k + 1]);
        }
        if i < d.len() {
            assert(t[i - 1] == d[i]);
        }
        lemma_leading_digits_at(t, i - 1);
    }
}

/// A longer run of digits writes no smaller number than its start.
pub proof fn lemma_decimal_grows(d: Seq<char>, i: int)
    requires
        0 <= i <= d.len(),
        all_digits(d),
    ensures
        decimal_value(d.take(i)) <= decimal_value(d),
    decreases d.len() - i,
{
    if i == d.len() {
        assert(d.take(i) =~= d);
    } else {
        lemma_decimal_grows(d, i + 1);
        assert(d.take(i + 1).drop_last() =~= d.take(i));
        assert(is_digit(d[i]));
        assert(d.take(i + 1).last() == d[i]);
    }
}

/// The digit `d` as a string.
fn digit_str(d: u8) -> (r: &'static str)
    requires
        d < 10,
    ensures
        r@ == seq![digit_char(d as nat)],
{
    proof {
        reveal_strlit("0");
        reveal_strlit("1");
        reveal_strlit("2");
        reveal_strlit("3");
        reveal_strlit("4");
        reveal_strlit("5");
        reveal_strlit("6");
        reveal_strlit("7");
        reveal_strlit("8");
        reveal_strlit("9");
    }
    let r = if d == 0 {
        "0"
    } else if d == 1 {
        "1"
    } else if d == 2 {
        "2"
    } else if d == 3 {
        "3"
    } else if d == 4 {
        "4"
    } else if d == 5 {
        "5"
    } else if d == 6 {
        "6"
    } else if d == 7 {
        "7"
    } else if d == 8 {
        "8"
    } else {
        "9"
    };
    proof {
        assert(r@ =~= seq![digit_char(d as nat)]);
    }
    r
}

/// A port number written in decimal, without leading zeros.
pub fn port_text(port: u16) -> (r: String)
    ensures
        r@ == decimal_digits(port as nat),
    decreases port,
{
    if port < 10 {
        digit_str(port as u8).to_owned()
    } else {
        let last = digit_str((port % 10) as u8);
        let r = port_text(port / 10).concat(last);
        proof {
            assert(r@ =~= decimal_digits((port / 10) as nat).push(digit_char((port % 10) as nat)));
        }
        r
    }
}

/// How many characters of `s` stand before the first `c`; the length of `s`
/// where it holds none.
pub open spec fn until(s: Seq<char>, c: char) -> nat
    decreases s.len(),
{
    if s.len() == 0 || s[0] == c {
        0
    } else {
        1 + until(s.drop_first(), c)
    }
}

/// The pieces of `s` between its occurrences of `c`. A string without one is
/// a single piece, the empty string too.
pub open spec fn split(s: Seq<char>, c: char) -> Seq<Seq<char>>
    decreases s.len(),
{
    let n = until(s, c) as int;
    if n >= s.len() {
        seq![s]
    } else {
        seq![s.take(n)] + split(s.skip(n + 1), c)
    }
}

/// One step of `until`, at any place of the string.
pub proof fn lemma_until_step(s: Seq<char>, c: char, j: int)
    requires
        0 <= j <= s.len(),
    ensures
        until(s.skip(j), c) == if j == s.len() || s[j] == c {
            0
        } else {
            1 + until(s.skip(j + 1), c)
        },
{
    if j < s.len() {
        assert(s.skip(j).drop_first() =~= s.skip(j + 1));
    }
}

/// `until` stops at the first `c` and not before.
pub proof fn lemma_until(s: Seq<char>, c: char)
    ensures
        until(s, c) <= s.len(),
        forall|k: int| 0 <= k < until(s, c) ==> s[k] != c,
        until(s, c) < s.len() ==> s[until(s, c) as int] == c,
    decreases s.len(),
{
    if s.len() == 0 || s[0] == c {
    } else {
        let t = s.drop_first();
        lemma_until(t, c);
        assert forall|k: int| 0 <= k < until(s, c) implies s[k] != c by {
            if k > 0 {
                assert(s[k] == t[k - 1]);
            }
        }
        if until(s, c) < s.len() {
            assert(s[until(s, c) as int] == t[until(t, c) as int]);
        }
    }
}

/// Where the first `c` at or after `from` stands in `s`; the length of `s`
/// where none does.
pub fn find(s: &[char], from: usize, c: char) -> (end: usize)
    requires
        from <= s.len(),
    ensures
        from <= end <= s.len(),
        end == from + until(s@.skip(from as int), c),
{
    let mut end: usize = from;
    while end < s.len() && s[end] != c
        invariant
            from <= end <= s.len(),
            until(s@.skip(from as int), c) == (end - from) + until(s@.skip(end as int), c),
        decreases s.len() - end,
    {
        proof {
            lemma_until_step(s@, c, end as int);
        }
        end += 1;
    }
    proof {
        lemma_until_step(s@, c, end as int);
    }
    end
}

/// Where `a` holds no `c` and `b` starts with one, the first `c` of `a + b`
/// stands where `a` ends.
pub proof fn lemma_until_prefix(a: Seq<char>, b: Seq<char>, c: char)
    requires
        until(a, c) == a.len(),
        b.len() > 0,
        b[0] == c,
    ensures
        until(a + b, c) == a.len(),
    decreases a.len(),
{
    if a.len() == 0 {
        assert(a + b =~= b);
    } else {
        assert((a + b).drop_first() =~= a.drop_first() + b);
        lemma_until(a.drop_first(), c);
        lemma_until_prefix(a.drop_first(), b, c);
    }
}

} // verus!
