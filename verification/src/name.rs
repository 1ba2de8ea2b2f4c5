//! Names of hosts and services, and the grammar that admits them.
//!
//! A name is a host, `example.org`, optionally followed by a colon and the
//! port to use where the resolver finds none: `example.org:8080`. The host is
//! made of labels separated by dots; one dot at the very end marks the name as
//! fully qualified and belongs to it.
use vstd::prelude::*;
use vstd::string::{StrSliceExecFns, StringExecFns};
use std::sync::Arc;
use crate::text::{
    chars_of, decimal_digits, decimal_value, digit_value, find, is_digit, leading_digits,
    lemma_decimal_grows, lemma_decimal_round_trip, lemma_leading_digits, lemma_leading_digits_at,
    lemma_until, lemma_until_prefix, port_text, same_chars, share, shared_str, split, until,
};

verus! {

/// Why the text after the colon is no port number.
#[derive(Debug, Clone, Copy, PartialEq, Eq, Structural)]
pub enum PortError {
    /// Nothing follows the colon.
    Empty,
    /// Something other than a decimal digit stands there, or a sign alone.
    InvalidDigit,
    /// The number is larger than a port can be.
    Overflow,
}

/// Why a string is not a name.
#[derive(Debug, Clone, Copy, PartialEq, Eq, Structural)]
pub enum Error {
    /// A label is empty: the name starts with a dot, or holds two in a row.
    DotError,
    /// A character is not a lower-case ascii letter, a digit, `-`, `_` or `.`.
    InvalidChar,
    /// A label starts or ends with a dash.
    InvalidPrefixSuffix,
    /// The default port does not parse.
    InvalidPort(PortError),
}

impl PortError {
    /// What went wrong, in words.
    pub open spec fn message(self) -> Seq<char> {
        match self {
            PortError::Empty => "cannot parse integer from empty string"@,
            PortError::InvalidDigit => "invalid digit found in string"@,
            PortError::Overflow => "number too large to fit in target type"@,
        }
    }

    /// What went wrong, in words.
    pub fn description(&self) -> (r: &'static str)
        ensures
            r@ == self.message(),
    {
        match self {
            PortError::Empty => "cannot parse integer from empty string",
            PortError::InvalidDigit => "invalid digit found in string",
            PortError::Overflow => "number too large to fit in target type",
        }
    }
}

impl Error {
    /// What is wrong with the name, in words, whatever the details.
    pub open spec fn summary(self) -> Seq<char> {
        match self {
            Error::DotError => "name can't start with dot and can't have subsequent dots"@,
            Error::InvalidChar =>
                "only ascii numbers and letters, dash `-`, underscore `_` and dot `.` are supported in names"@,
            Error::InvalidPrefixSuffix => "any part of name can't start or end with dash"@,
            Error::InvalidPort(_) => "error parsing default port number"@,
        }
    }

    /// What is wrong with the name, in words, with the details.
    pub open spec fn message(self) -> Seq<char> {
        match self {
            Error::InvalidPort(e) => "default port number is invalid: "@ + e.message(),
            _ => self.summary(),
        }
    }

    /// What is wrong with the name, in words, whatever the details.
    pub fn description(&self) -> (r: &'static str)
        ensures
            r@ == self.summary(),
    {
        match self {
            Error::DotError => "name can't start with dot and can't have subsequent dots",
            Error::InvalidChar =>
                "only ascii numbers and letters, dash `-`, underscore `_` and dot `.` are supported in names",
            Error::InvalidPrefixSuffix => "any part of name can't start or end with dash",
            Error::InvalidPort(_) => "error parsing default port number",
        }
    }

    /// What is wrong with the name, in words, with the details.
    pub fn to_string(&self) -> (r: String)
        ensures
            r@ == self.message(),
    {
        match self {
            Error::InvalidPort(e) => {
                let start = "default port number is invalid: ".to_owned();
                start.concat(e.description())
            },
            _ => self.description().to_owned(),
        }
    }
}

/// A character that may stand in a label.
pub open spec fn label_char(c: char) -> bool {
    ('a' <= c && c <= 'z') || ('0' <= c && c <= '9') || c == '-' || c == '_'
}

/// Whether every character of `l` may stand in a label.
pub open spec fn label_chars(l: Seq<char>) -> bool {
    forall|i: int| 0 <= i < l.len() ==> label_char(#[trigger] l[i])
}

/// What is wrong with the label `l`, if anything. An empty label is reported
/// before a bad character, and a bad character before a dash at either end.
pub open spec fn label_error(l: Seq<char>) -> Option<Error> {
    if l.len() == 0 {
        Some(Error::DotError)
    } else if !label_chars(l) {
        Some(Error::InvalidChar)
    } else if l[0] == '-' || l.last() == '-' {
        Some(Error::InvalidPrefixSuffix)
    } else {
        None
    }
}

/// The labels of the host `s`: the pieces between its dots.
pub open spec fn labels(s: Seq<char>) -> Seq<Seq<char>> {
    split(s, '.')
}

/// The error of the first label that has one.
pub open spec fn first_error(ls: Seq<Seq<char>>) -> Option<Error>
    decreases ls.len(),
{
    if ls.len() == 0 {
        None
    } else if label_error(ls[0]) is Some {
        label_error(ls[0])
    } else {
        first_error(ls.drop_first())
    }
}

/// The host without the dot that marks it as fully qualified.
pub open spec fn host_body(s: Seq<char>) -> Seq<char> {
    if s.len() > 0 && s.last() == '.' {
        s.drop_last()
    } else {
        s
    }
}

/// What is wrong with the host `s`, if anything: the error of its first bad
/// label, the final dot set aside.
pub open spec fn host_error(s: Seq<char>) -> Option<Error> {
    first_error(labels(host_body(s)))
}

/// The grammar of a host, said at once: no label is empty, every label is
/// made of lower-case ascii letters, digits, `-` and `_`, and none starts or
/// ends with a dash.
pub open spec fn valid_host(s: Seq<char>) -> bool {
    let ls = labels(host_body(s));
    forall|i: int|
        0 <= i < ls.len() ==> {
            &&& (#[trigger] ls[i]).len() > 0
            &&& label_chars(ls[i])
            &&& ls[i][0] != '-'
            &&& ls[i].last() != '-'
        }
}

/// What the text `p` after the colon says: a decimal number that fits a
/// port, with an optional `+` before it.
///
/// The text is read from the left, and the first character that cannot be
/// taken decides the error: a character that is no digit gives
/// `InvalidDigit`, and a digit that takes the number over 65535 gives
/// `Overflow`. So `99999x` overflows, and `9x9999` has a bad digit. A sign
/// without a digit after it is a bad digit too.
pub open spec fn parse_port(p: Seq<char>) -> Result<u16, PortError> {
    let d = if p.len() > 0 && p[0] == '+' {
        p.skip(1)
    } else {
        p
    };
    let lead = d.take(leading_digits(d) as int);
    if p.len() == 0 {
        Err(PortError::Empty)
    } else if d.len() == 0 {
        Err(PortError::InvalidDigit)
    } else if decimal_value(lead) > u16::MAX {
        Err(PortError::Overflow)
    } else if lead.len() < d.len() {
        Err(PortError::InvalidDigit)
    } else {
        Ok(decimal_value(d) as u16)
    }
}

/// What the string `s` says: the host before the first colon and the port
/// after it. The host is judged first.
pub open spec fn parse_name(s: Seq<char>) -> Result<(Seq<char>, Option<u16>), Error> {
    let n = until(s, ':') as int;
    let host = s.take(n);
    if host_error(host) is Some {
        Err(host_error(host)->0)
    } else if n >= s.len() {
        Ok((host, None))
    } else {
        match parse_port(s.skip(n + 1)) {
            Ok(port) => Ok((host, Some(port))),
            Err(e) => Err(Error::InvalidPort(e)),
        }
    }
}

/// How a host and its default port are written.
pub open spec fn name_text(host: Seq<char>, port: Option<u16>) -> Seq<char> {
    match port {
        None => host,
        Some(p) => host + seq![':'] + decimal_digits(p as nat),
    }
}

/// Judges the label that stands in `s` from `from` up to `to`.
fn check_label(s: &[char], from: usize, to: usize) -> (r: Option<Error>)
    requires
        from <= to <= s.len(),
    ensures
        r == label_error(s@.subrange(from as int, to as int)),
{
    let ghost l = s@.subrange(from as int, to as int);
    if from == to {
        return Some(Error::DotError);
    }
    let mut i: usize = from;
    while i < to
        invariant
            from <= i <= to <= s.len(),
            l == s@.subrange(from as int, to as int),
            forall|k: int| 0 <= k < i - from ==> label_char(#[trigger] l[k]),
        decreases to - i,
    {
        let c = s[i];
        let ok = ('a' <= c && c <= 'z') || ('0' <= c && c <= '9') || c == '-' || c == '_';
        if !ok {
            proof {
                assert(l[i - from] == c);
            }
            return Some(Error::InvalidChar);
        }
        i += 1;
    }
    if s[from] == '-' || s[to - 1] == '-' {
        Some(Error::InvalidPrefixSuffix)
    } else {
        None
    }
}

/// Judges a host, given as its characters.
fn check_host(s: &[char]) -> (r: Option<Error>)
    ensures
        r == host_error(s@),
{
    let len: usize = if s.len() > 0 && s[s.len() - 1] == '.' {
        s.len() - 1
    } else {
        s.len()
    };
    let body = vstd::slice::slice_subrange(s, 0, len);
    proof {
        assert(body@ =~= host_body(s@));
    }
    proof {
        assert(body@.skip(0) =~= body@);
    }
    let mut start: usize = 0;
    loop
        invariant
            start <= body.len(),
            host_error(s@) == first_error(labels(body@.skip(start as int))),
        decreases body.len() - start,
    {
        let end = find(body, start, '.');
        let e = check_label(body, start, end);
        let ghost t = body@.skip(start as int);
        let ghost n = end - start;
        proof {
            assert(t.take(n) =~= body@.subrange(start as int, end as int));
            if n >= t.len() {
                assert(t =~= body@.subrange(start as int, end as int));
                assert(labels(t) =~= seq![t]);
                assert(labels(t).drop_first() =~= Seq::<Seq<char>>::empty());
                assert(first_error(Seq::<Seq<char>>::empty()) is None);
            } else {
                assert(t.skip(n + 1) =~= body@.skip(end + 1));
                assert(labels(t) =~= seq![t.take(n)] + labels(t.skip(n + 1)));
                assert(labels(t)[0] == t.take(n));
                assert(labels(t).drop_first() =~= labels(t.skip(n + 1)));
            }
        }
        if e.is_some() {
            return e;
        }
        if end >= body.len() {
            return None;
        }
        start = end + 1;
    }
}

/// Reads the port that stands in `s` from `from` to its end.
fn read_port(s: &[char], from: usize) -> (r: Result<u16, PortError>)
    requires
        from <= s.len(),
    ensures
        r == parse_port(s@.skip(from as int)),
{
    let ghost p = s@.skip(from as int);
    if from == s.len() {
        return Err(PortError::Empty);
    }
    let first: usize = if s[from] == '+' {
        from + 1
    } else {
        from
    };
    let ghost d = s@.skip(first as int);
    proof {
        assert(p[0] == s@[from as int]);
        if first > from {
            assert(p.skip(1) =~= d);
        } else {
            assert(p =~= d);
        }
    }
    if first == s.len() {
        return Err(PortError::InvalidDigit);
    }
    let mut value: u32 = 0;
    let mut i: usize = first;
    while i < s.len()
        invariant
            first <= i <= s.len(),
            d == s@.skip(first as int),
            p == s@.skip(from as int),
            p.len() > 0,
            d.len() > 0,
            d == if p[0] == '+' { p.skip(1) } else { p },
            forall|k: int| 0 <= k < i - first ==> is_digit(#[trigger] d[k]),
            value <= u16::MAX,
            value == decimal_value(d.take(i - first)),
        decreases s.len() - i,
    {
        let c = s[i];
        proof {
            assert(d[i - first] == c);
        }
        if !('0' <= c && c <= '9') {
            proof {
                lemma_leading_digits_at(d, i - first);
            }
            return Err(PortError::InvalidDigit);
        }
        let digit: u32 = (c as u32) - ('0' as u32);
        let next: u32 = value * 10 + digit;
        proof {
            assert(d.take(i - first + 1).drop_last() =~= d.take(i - first));
            assert(d.take(i - first + 1).last() == c);
            assert(digit == digit_value(c));
            assert(next == decimal_value(d.take(i - first + 1)));
        }
        if next > 65535 {
            proof {
                let k = leading_digits(d) as int;
                lemma_leading_digits(d);
                if k <= i - first {
                    assert(is_digit(d[k]));
                }
                lemma_decimal_grows(d.take(k), i - first + 1);
                assert(d.take(k).take(i - first + 1) =~= d.take(i - first + 1));
            }
            return Err(PortError::Overflow);
        }
        value = next;
        i += 1;
    }
    proof {
        lemma_leading_digits_at(d, d.len() as int);
        assert(d.take(d.len() as int) =~= d);
    }
    Ok(value as u16)
}

/// A validated name: a host and, optionally, the port to fall back on.
///
/// The host is shared, not copied, when a name is cloned.
#[derive(Debug, Eq, PartialOrd, Ord, Hash)]
pub struct Name {
    host: Arc<str>,
    port: Option<u16>,
}

/// What a name is: the characters of its host, and its default port.
pub ghost struct NameView {
    pub host: Seq<char>,
    pub port: Option<u16>,
}

impl View for Name {
    type V = NameView;

    closed spec fn view(&self) -> NameView {
        NameView { host: (*self.host)@, port: self.port }
    }
}

impl Name {
    #[verifier::type_invariant]
    spec fn well_formed(self) -> bool {
        host_error((*self.host)@) is None
    }

    /// Reads a name from a string: a host, or a host, a colon and a port.
    pub fn from_str(value: &str) -> (r: Result<Name, Error>)
        ensures
            match parse_name(value@) {
                Ok((host, port)) => r is Ok && r->Ok_0@ == (NameView { host, port }),
                Err(e) => r == Err::<Name, Error>(e),
            },
    {
        let chars = chars_of(value);
        let colon = find(chars.as_slice(), 0, ':');
        proof {
            assert(chars@.skip(0) =~= chars@);
        }
        let host_chars = vstd::slice::slice_subrange(chars.as_slice(), 0, colon);
        proof {
            assert(host_chars@ =~= value@.take(colon as int));
        }
        match check_host(host_chars) {
            Some(e) => Err(e),
            None => {
                if colon >= chars.len() {
                    proof {
                        assert(host_chars@ =~= value@);
                    }
                    Ok(Name { host: shared_str(value), port: None })
                } else {
                    match read_port(chars.as_slice(), colon + 1) {
                        Ok(port) => {
                            let host = value.substring_char(0, colon);
                            Ok(Name { host: shared_str(host), port: Some(port) })
                        },
                        Err(e) => Err(Error::InvalidPort(e)),
                    }
                }
            },
        }
    }

    /// Makes a name of a shared string that holds a host and nothing else.
    /// The name shares the string and has no port: a colon is a character
    /// that a host cannot hold. Names with a port come from
    /// [`Name::from_str`].
    pub fn from_arc(arc: &Arc<str>) -> (r: Result<Name, Error>)
        ensures
            match host_error((**arc)@) {
                None => r is Ok && r->Ok_0@ == (NameView { host: (**arc)@, port: None }),
                Some(e) => r == Err::<Name, Error>(e),
            },
    {
        let chars = chars_of(&**arc);
        match check_host(chars.as_slice()) {
            Some(e) => Err(e),
            None => Ok(Name { host: share(arc), port: None }),
        }
    }

    /// The host, shared with the name. It meets the grammar, so a name can
    /// be made of it again.
    pub fn inner(&self) -> (r: Arc<str>)
        ensures
            (*r)@ == self@.host,
            host_error((*r)@) is None,
    {
        proof {
            use_type_invariant(self);
        }
        share(&self.host)
    }

    /// The host. It meets the grammar, as the host of every name does.
    pub fn host(&self) -> (r: &str)
        ensures
            r@ == self@.host,
            valid_host(self@.host),
    {
        proof {
            use_type_invariant(self);
            lemma_valid_iff_no_error(self@.host);
        }
        &*self.host
    }

    /// The host, as `host` gives it.
    pub fn as_ref(&self) -> (r: &str)
        ensures
            r@ == self@.host,
    {
        self.host()
    }

    /// The port to use where the resolver finds none.
    pub fn default_port(&self) -> (r: Option<u16>)
        ensures
            r == self@.port,
    {
        self.port
    }

    /// The name as it is written: the host, then a colon and the port where
    /// there is one.
    pub fn to_string(&self) -> (r: String)
        ensures
            r@ == name_text(self@.host, self@.port),
    {
        let host = self.host().to_owned();
        match self.port {
            None => host,
            Some(port) => {
                proof {
                    reveal_strlit(":");
                    assert(":"@ =~= seq![':']);
                }
                let digits = port_text(port);
                host.concat(":").concat(digits.as_str())
            },
        }
    }
}

impl PartialEq for Name {
    /// Whether the two names have the same host and the same port.
    fn eq(&self, other: &Name) -> (r: bool)
        ensures
            r == (self@ == other@),
    {
        let mine = chars_of(self.host());
        let theirs = chars_of(other.host());
        same_chars(mine.as_slice(), theirs.as_slice()) && self.port == other.port
    }
}

impl vstd::std_specs::cmp::PartialEqSpecImpl for Name {
    open spec fn obeys_eq_spec() -> bool {
        true
    }

    open spec fn eq_spec(&self, other: &Name) -> bool {
        self@ == other@
    }
}

impl Clone for Name {
    fn clone(&self) -> (r: Name)
        ensures
            r@ == self@,
    {
        proof {
            use_type_invariant(self);
        }
        Name { host: share(&self.host), port: self.port }
    }
}

impl std::str::FromStr for Name {
    type Err = Error;

    /// Reads a name as [`Name::from_str`] does.
    fn from_str(value: &str) -> (r: Result<Name, Error>)
        ensures
            match parse_name(value@) {
                Ok((host, port)) => r is Ok && r->Ok_0@ == (NameView { host, port }),
                Err(e) => r == Err::<Name, Error>(e),
            },
    {
        Name::from_str(value)
    }
}

/// Checks that `name` is a host: labels separated by dots, none of them
/// empty, each made of lower-case ascii letters, digits, `-` and `_`, and
/// neither starting nor ending with a dash. One dot at the end is allowed.
pub fn namecheck(name: &str) -> (r: Result<(), Error>)
    ensures
        match host_error(name@) {
            None => r is Ok,
            Some(e) => r == Err::<(), Error>(e),
        },
{
    let chars = chars_of(name);
    match check_host(chars.as_slice()) {
        None => Ok(()),
        Some(e) => Err(e),
    }
}

/// No label has an error exactly when the first error is none.
proof fn lemma_first_error(ls: Seq<Seq<char>>)
    ensures
        first_error(ls) is None <==> forall|i: int|
            0 <= i < ls.len() ==> label_error(#[trigger] ls[i]) is None,
    decreases ls.len(),
{
    if ls.len() > 0 {
        let rest = ls.drop_first();
        lemma_first_error(rest);
        if first_error(ls) is None {
            assert forall|i: int| 0 <= i < ls.len() implies label_error(
                #[trigger] ls[i],
            ) is None by {
                if i > 0 {
                    assert(ls[i] == rest[i - 1]);
                }
            }
        } else if label_error(ls[0]) is None {
            let i = choose|i: int| 0 <= i < rest.len() && !(label_error(
                #[trigger] rest[i],
            ) is None);
            assert(ls[i + 1] == rest[i]);
        }
    }
}

/// The grammar and the check agree: a host is valid exactly when the check
/// finds no error in it.
pub proof fn lemma_valid_iff_no_error(s: Seq<char>)
    ensures
        valid_host(s) <==> host_error(s) is None,
{
    let ls = labels(host_body(s));
    lemma_first_error(ls);
    if valid_host(s) {
        assert forall|i: int| 0 <= i < ls.len() implies label_error(#[trigger] ls[i]) is None by {
            assert(ls[i].len() > 0);
        }
    }
    if host_error(s) is None {
        assert forall|i: int| 0 <= i < ls.len() implies {
            &&& (#[trigger] ls[i]).len() > 0
            &&& label_chars(ls[i])
            &&& ls[i][0] != '-'
            &&& ls[i].last() != '-'
        } by {
            assert(label_error(ls[i]) is None);
        }
    }
}

/// A string whose labels are all made of label characters holds nothing but
/// label characters and dots.
proof fn lemma_labels_cover(b: Seq<char>)
    requires
        forall|i: int| 0 <= i < labels(b).len() ==> label_chars(#[trigger] labels(b)[i]),
    ensures
        forall|k: int| 0 <= k < b.len() ==> #[trigger] b[k] == '.' || label_char(b[k]),
    decreases b.len(),
{
    let n = until(b, '.') as int;
    lemma_until(b, '.');
    let ls = labels(b);
    if n >= b.len() {
        assert(ls[0] == b);
        assert(label_chars(ls[0]));
    } else {
        let rest = b.skip(n + 1);
        assert(ls[0] == b.take(n));
        assert(label_chars(ls[0]));
        assert forall|i: int| 0 <= i < labels(rest).len() implies label_chars(
            #[trigger] labels(rest)[i],
        ) by {
            assert(ls[i + 1] == labels(rest)[i]);
        }
        lemma_labels_cover(rest);
        assert forall|k: int| 0 <= k < b.len() implies #[trigger] b[k] == '.' || label_char(
            b[k],
        ) by {
            if k < n {
                assert(b[k] == b.take(n)[k]);
            } else if k > n {
                assert(b[k] == rest[k - n - 1]);
            }
        }
    }
}

/// A valid host holds no colon.
proof fn lemma_valid_host_no_colon(s: Seq<char>)
    requires
        valid_host(s),
    ensures
        until(s, ':') == s.len(),
{
    let b = host_body(s);
    lemma_labels_cover(b);
    lemma_until(s, ':');
    if until(s, ':') < s.len() {
        let k = until(s, ':') as int;
        assert(s[k] == ':');
        if k < b.len() {
            assert(b[k] == s[k]);
        }
    }
}

/// Every host that meets the grammar parses as a name without a port, and
/// that name is written exactly as the host was given, a final dot included.
pub proof fn lemma_valid_host_round_trip(s: Seq<char>)
    requires
        valid_host(s),
    ensures
        parse_name(s) == Ok::<(Seq<char>, Option<u16>), Error>((s, None)),
        name_text(s, None) == s,
{
    lemma_valid_host_no_colon(s);
    lemma_valid_iff_no_error(s);
    assert(s.take(s.len() as int) =~= s);
}

/// What a name writes reads back as the same name: the same host and the
/// same port.
pub proof fn lemma_name_round_trip(host: Seq<char>, port: Option<u16>)
    requires
        valid_host(host),
    ensures
        parse_name(name_text(host, port)) == Ok::<(Seq<char>, Option<u16>), Error>((host, port)),
{
    lemma_valid_host_round_trip(host);
    match port {
        None => {},
        Some(p) => {
            let digits = decimal_digits(p as nat);
            let text = name_text(host, port);
            lemma_decimal_round_trip(p as nat);
            lemma_valid_host_no_colon(host);
            lemma_until(host, ':');
            lemma_until_prefix(host, seq![':'] + digits, ':');
            assert(text =~= host + (seq![':'] + digits));
            assert(text.take(host.len() as int) =~= host);
            assert(text.skip(host.len() as int + 1) =~= digits);
            lemma_valid_iff_no_error(host);
            assert(is_digit(digits[0]));
            lemma_leading_digits_at(digits, digits.len() as int);
            assert(digits.take(digits.len() as int) =~= digits);
        },
    }
}

} // verus!
