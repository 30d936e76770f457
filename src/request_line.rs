//! The request line: `METHOD SP PATH [? QUERY] SP HTTP/d.d CRLF`.
use vstd::prelude::*;

use crate::headers::is_upper;
use crate::text::{
    append_str, chars_of, find_char, find_from, lemma_find_first, lemma_find_from_some, push_char,
    string_of,
};

verus! {

/// The request method; a token that names none of the others is kept in `Other`.
#[derive(Debug, PartialEq, Eq)]
pub enum Method {
    Get,
    Put,
    Post,
    Delete,
    Head,
    Connect,
    Options,
    Trace,
    Patch,
    Purge,
    Other(String),
}

impl View for Method {
    type V = Seq<char>;

    /// The method's token on the wire.
    open spec fn view(&self) -> Seq<char> {
        match self {
            Method::Get => "GET"@,
            Method::Put => "PUT"@,
            Method::Post => "POST"@,
            Method::Delete => "DELETE"@,
            Method::Head => "HEAD"@,
            Method::Connect => "CONNECT"@,
            Method::Options => "OPTIONS"@,
            Method::Trace => "TRACE"@,
            Method::Patch => "PATCH"@,
            Method::Purge => "PURGE"@,
            Method::Other(s) => s@,
        }
    }
}

/// The token names one of the methods that have a variant of their own.
pub open spec fn known_method(t: Seq<char>) -> bool {
    t == "GET"@ || t == "PUT"@ || t == "POST"@ || t == "DELETE"@ || t == "HEAD"@ || t
        == "CONNECT"@ || t == "OPTIONS"@ || t == "TRACE"@ || t == "PATCH"@ || t == "PURGE"@
}

/// `m` is the method that the token `t` reads as.
pub open spec fn method_for(t: Seq<char>, m: Method) -> bool {
    m@ == t && (m is Other <==> !known_method(t))
}

fn same_word(v: &Vec<char>, w: &str) -> (r: bool)
    ensures
        r == (v@ == w@),
{
    let n = w.unicode_len();
    if v.len() != n {
        return false;
    }
    let mut i: usize = 0;
    while i < n
        invariant
            n == w@.len(),
            v@.len() == n,
            i <= n,
            forall|k: int| 0 <= k < i ==> v@[k] == w@[k],
        decreases n - i,
    {
        if v[i] != w.get_char(i) {
            return false;
        }
        i = i + 1;
    }
    assert(v@ =~= w@);
    true
}

impl Method {
    /// The method that `token` reads as.
    pub fn from_token(token: &str) -> (r: Method)
        ensures
            method_for(token@, r),
    {
        let v = chars_of(token);
        if same_word(&v, "GET") {
            Method::Get
        } else if same_word(&v, "PUT") {
            Method::Put
        } else if same_word(&v, "POST") {
            Method::Post
        } else if same_word(&v, "DELETE") {
            Method::Delete
        } else if same_word(&v, "HEAD") {
            Method::Head
        } else if same_word(&v, "CONNECT") {
            Method::Connect
        } else if same_word(&v, "OPTIONS") {
            Method::Options
        } else if same_word(&v, "TRACE") {
            Method::Trace
        } else if same_word(&v, "PATCH") {
            Method::Patch
        } else if same_word(&v, "PURGE") {
            Method::Purge
        } else {
            Method::Other(token.to_owned())
        }
    }

    /// The method's token.
    pub fn as_str(&self) -> (r: &str)
        ensures
            r@ == self@,
    {
        match self {
            Method::Get => "GET",
            Method::Put => "PUT",
            Method::Post => "POST",
            Method::Delete => "DELETE",
            Method::Head => "HEAD",
            Method::Connect => "CONNECT",
            Method::Options => "OPTIONS",
            Method::Trace => "TRACE",
            Method::Patch => "PATCH",
            Method::Purge => "PURGE",
            Method::Other(s) => s.as_str(),
        }
    }
}

pub open spec fn is_digit(c: char) -> bool {
    c == '0' || c == '1' || c == '2' || c == '3' || c == '4' || c == '5' || c == '6' || c == '7'
        || c == '8' || c == '9'
}

pub open spec fn digit_value(c: char) -> u8 {
    if c == '0' {
        0
    } else if c == '1' {
        1
    } else if c == '2' {
        2
    } else if c == '3' {
        3
    } else if c == '4' {
        4
    } else if c == '5' {
        5
    } else if c == '6' {
        6
    } else if c == '7' {
        7
    } else if c == '8' {
        8
    } else {
        9
    }
}

pub open spec fn digit_char(d: u8) -> char {
    if d == 0 {
        '0'
    } else if d == 1 {
        '1'
    } else if d == 2 {
        '2'
    } else if d == 3 {
        '3'
    } else if d == 4 {
        '4'
    } else if d == 5 {
        '5'
    } else if d == 6 {
        '6'
    } else if d == 7 {
        '7'
    } else if d == 8 {
        '8'
    } else {
        '9'
    }
}

pub fn is_digit_exec(c: char) -> (r: bool)
    ensures
        r == is_digit(c),
{
    c == '0' || c == '1' || c == '2' || c == '3' || c == '4' || c == '5' || c == '6' || c == '7'
        || c == '8' || c == '9'
}

pub fn digit_value_exec(c: char) -> (r: u8)
    ensures
        r == digit_value(c),
{
    if c == '0' {
        0
    } else if c == '1' {
        1
    } else if c == '2' {
        2
    } else if c == '3' {
        3
    } else if c == '4' {
        4
    } else if c == '5' {
        5
    } else if c == '6' {
        6
    } else if c == '7' {
        7
    } else if c == '8' {
        8
    } else {
        9
    }
}

pub fn digit_char_exec(d: u8) -> (r: char)
    ensures
        r == digit_char(d),
{
    if d == 0 {
        '0'
    } else if d == 1 {
        '1'
    } else if d == 2 {
        '2'
    } else if d == 3 {
        '3'
    } else if d == 4 {
        '4'
    } else if d == 5 {
        '5'
    } else if d == 6 {
        '6'
    } else if d == 7 {
        '7'
    } else if d == 8 {
        '8'
    } else {
        '9'
    }
}

/// The parts of a request line: method token, path, query, major and minor version.
pub type RawRequestLine = (Seq<char>, Seq<char>, Option<Seq<char>>, u8, u8);

/// The line ends with ` HTTP/d.d` and CRLF.
pub open spec fn version_suffix_ok(line: Seq<char>) -> bool {
    let n = line.len() as int;
    &&& n >= 11
    &&& line[n - 11] == ' '
    &&& line[n - 10] == 'H'
    &&& line[n - 9] == 'T'
    &&& line[n - 8] == 'T'
    &&& line[n - 7] == 'P'
    &&& line[n - 6] == '/'
    &&& is_digit(line[n - 5])
    &&& line[n - 4] == '.'
    &&& is_digit(line[n - 3])
    &&& line[n - 2] == '\r'
    &&& line[n - 1] == '\n'
}

pub open spec fn all_upper(s: Seq<char>) -> bool {
    forall|i: int| 0 <= i < s.len() ==> is_upper(#[trigger] s[i])
}

/// The request target cut at its first `?` into a path and a query.
pub open spec fn split_target(t: Seq<char>) -> (Seq<char>, Option<Seq<char>>) {
    match find_from(t, '?', 0) {
        Some(q) => (t.subrange(0, q), Some(t.subrange(q + 1, t.len() as int))),
        None => (t, None),
    }
}

/// How a request line reads: the method is the uppercase letters before the first space,
/// the version the two digits of the ` HTTP/d.d` CRLF that ends the line, and the target
/// between them is cut at its first `?` into a path, which must begin with `/`, and a
/// query. Any other line is malformed (`None`).
pub open spec fn parse_request_line_spec(line: Seq<char>) -> Option<RawRequestLine> {
    let n = line.len() as int;
    if !version_suffix_ok(line) {
        None
    } else {
        match find_from(line, ' ', 0) {
            None => None,
            Some(sp) => {
                let method = line.subrange(0, sp);
                if sp == 0 || sp + 1 > n - 11 || !all_upper(method) {
                    None
                } else {
                    let (path, query) = split_target(line.subrange(sp + 1, n - 11));
                    if path.len() == 0 || path[0] != '/' {
                        None
                    } else {
                        Some((method, path, query, digit_value(line[n - 5]), digit_value(line[n - 3])))
                    }
                }
            },
        }
    }
}

/// The request line on the wire, with its CRLF.
pub open spec fn request_line_text(r: RawRequestLine) -> Seq<char> {
    r.0 + seq![' '] + r.1 + (match r.2 {
        Some(q) => seq!['?'] + q,
        None => Seq::empty(),
    }) + seq![' ', 'H', 'T', 'T', 'P', '/', digit_char(r.3), '.', digit_char(r.4), '\r', '\n']
}

pub open spec fn opt_view(o: Option<String>) -> Option<Seq<char>> {
    match o {
        Some(s) => Some(s@),
        None => None,
    }
}

/// Why a request could not be read.
#[derive(Debug, PartialEq, Eq, Structural, Clone, Copy)]
pub enum ParseError {
    /// The request line does not follow the grammar.
    MalformedRequestLine,
    /// A header line has no `": "`.
    MalformedHeader,
    /// A piece of the query has no `=`.
    MalformedQuery,
    /// `Content-Length` is not an unsigned decimal integer.
    InvalidContentLength,
}

/// A parsed request line, before any percent-decoding.
#[derive(Debug)]
pub struct RequestLine {
    method: Method,
    path: String,
    query: Option<String>,
    major: u8,
    minor: u8,
}

impl View for RequestLine {
    type V = RawRequestLine;

    closed spec fn view(&self) -> RawRequestLine {
        (self.method@, self.path@, opt_view(self.query), self.major, self.minor)
    }
}

impl RequestLine {
    /// The method is the one its token reads as, and the version numbers are digits.
    pub closed spec fn wf(&self) -> bool {
        method_for(self.method@, self.method) && self.major < 10 && self.minor < 10
    }

    pub fn method(&self) -> (r: &Method)
        requires
            self.wf(),
        ensures
            method_for(self@.0, *r),
    {
        &self.method
    }

    pub fn path(&self) -> (r: &str)
        ensures
            r@ == self@.1,
    {
        self.path.as_str()
    }

    pub fn query(&self) -> (r: Option<&str>)
        ensures
            match r {
                Some(q) => self@.2 == Some(q@),
                None => self@.2 is None,
            },
    {
        match &self.query {
            Some(q) => Some(q.as_str()),
            None => None,
        }
    }

    /// Major and minor version.
    pub fn version(&self) -> (r: (u8, u8))
        ensures
            r == (self@.3, self@.4),
    {
        (self.major, self.minor)
    }

    /// Gives up the parts: method, path, query, major and minor version.
    pub fn into_parts(self) -> (r: (Method, String, Option<String>, u8, u8))
        requires
            self.wf(),
        ensures
            method_for(self@.0, r.0),
            (r.0@, r.1@, opt_view(r.2), r.3, r.4) == self@,
    {
        (self.method, self.path, self.query, self.major, self.minor)
    }

    /// The line on the wire: `METHOD PATH[?QUERY] HTTP/d.d` and CRLF.
    pub fn to_line(&self) -> (r: String)
        requires
            self.wf(),
        ensures
            r@ == request_line_text(self@),
    {
        let mut out = String::new();
        append_str(&mut out, self.method.as_str());
        push_char(&mut out, ' ');
        append_str(&mut out, self.path.as_str());
        match &self.query {
            Some(q) => {
                push_char(&mut out, '?');
                append_str(&mut out, q.as_str());
            },
            None => {},
        }
        let ghost mid = out@;
        push_char(&mut out, ' ');
        push_char(&mut out, 'H');
        push_char(&mut out, 'T');
        push_char(&mut out, 'T');
        push_char(&mut out, 'P');
        push_char(&mut out, '/');
        push_char(&mut out, digit_char_exec(self.major));
        push_char(&mut out, '.');
        push_char(&mut out, digit_char_exec(self.minor));
        push_char(&mut out, '\r');
        push_char(&mut out, '\n');
        assert(out@ =~= request_line_text(self@));
        out
    }
}

/// Whether the first `to` characters of `v` are all uppercase letters.
fn upper_prefix(v: &Vec<char>, to: usize) -> (r: bool)
    requires
        to <= v@.len(),
    ensures
        r == all_upper(v@.subrange(0, to as int)),
{
    let mut i: usize = 0;
    while i < to
        invariant
            to <= v@.len(),
            i <= to,
            forall|k: int| 0 <= k < i ==> is_upper(#[trigger] v@[k]),
        decreases to - i,
    {
        if !('A' <= v[i] && v[i] <= 'Z') {
            assert(v@.subrange(0, to as int)[i as int] == v@[i as int]);
            return false;
        }
        i = i + 1;
    }
    assert forall|k: int| 0 <= k < to implies is_upper(#[trigger] v@.subrange(0, to as int)[k]) by {
        assert(v@.subrange(0, to as int)[k] == v@[k]);
    }
    true
}

/// Reads a request line (with its CRLF) by the grammar of `parse_request_line_spec`.
pub fn parse_request_line(line: &str) -> (r: Result<RequestLine, ParseError>)
    ensures
        match parse_request_line_spec(line@) {
            Some(p) => r is Ok && r->Ok_0@ == p && r->Ok_0.wf(),
            None => r == Err::<RequestLine, ParseError>(ParseError::MalformedRequestLine),
        },
{
    let v = chars_of(line);
    let n = v.len();
    if n < 11 {
        return Err(ParseError::MalformedRequestLine);
    }
    if !(v[n - 11] == ' ' && v[n - 10] == 'H' && v[n - 9] == 'T' && v[n - 8] == 'T' && v[n - 7]
        == 'P' && v[n - 6] == '/' && is_digit_exec(v[n - 5]) && v[n - 4] == '.' && is_digit_exec(
        v[n - 3],
    ) && v[n - 2] == '\r' && v[n - 1] == '\n') {
        return Err(ParseError::MalformedRequestLine);
    }
    let sp = match find_char(&v, ' ', 0) {
        Some(sp) => sp,
        None => return Err(ParseError::MalformedRequestLine),
    };
    proof {
        lemma_find_from_some(v@, ' ', 0);
    }
    if sp == 0 || sp + 1 > n - 11 {
        return Err(ParseError::MalformedRequestLine);
    }
    if !upper_prefix(&v, sp) {
        return Err(ParseError::MalformedRequestLine);
    }
    let token = string_of(&v, 0, sp);
    let method = Method::from_token(token.as_str());
    let target = chars_of(string_of(&v, sp + 1, n - 11).as_str());
    let (path, query) = match find_char(&target, '?', 0) {
        Some(q) => {
            proof {
                lemma_find_from_some(target@, '?', 0);
            }
            (string_of(&target, 0, q), Some(string_of(&target, q + 1, target.len())))
        },
        None => {
            assert(target@.subrange(0, target@.len() as int) =~= target@);
            (string_of(&target, 0, target.len()), None)
        },
    };
    let pv = chars_of(path.as_str());
    if pv.len() == 0 || pv[0] != '/' {
        return Err(ParseError::MalformedRequestLine);
    }
    let major = digit_value_exec(v[n - 5]);
    let minor = digit_value_exec(v[n - 3]);
    Ok(RequestLine { method, path, query, major, minor })
}

/// A line that reads as a request line is exactly the wire form of what it reads as:
/// writing the parts back gives the same method token, path, query and version.
pub proof fn lemma_request_line_round_trip(line: Seq<char>)
    requires
        parse_request_line_spec(line) is Some,
    ensures
        request_line_text(parse_request_line_spec(line)->0) == line,
{
    let n = line.len() as int;
    let r = parse_request_line_spec(line)->0;
    let sp = find_from(line, ' ', 0)->0;
    lemma_find_from_some(line, ' ', 0);
    let target = line.subrange(sp + 1, n - 11);
    let suffix = seq![' ', 'H', 'T', 'T', 'P', '/', digit_char(r.3), '.', digit_char(r.4), '\r', '\n'];
    assert(suffix =~= line.subrange(n - 11, n));
    let middle = r.1 + (match r.2 {
        Some(q) => seq!['?'] + q,
        None => Seq::<char>::empty(),
    });
    match find_from(target, '?', 0) {
        Some(q) => {
            lemma_find_from_some(target, '?', 0);
            assert(middle =~= target);
        },
        None => {
            assert(middle =~= target);
        },
    }
    assert(line =~= line.subrange(0, sp) + seq![' '] + target + line.subrange(n - 11, n));
}

/// Parts that a request line can hold: an uppercase method token, a path that begins with
/// `/` and has no `?`, and one-digit version numbers.
pub open spec fn valid_parts(r: RawRequestLine) -> bool {
    &&& r.0.len() > 0
    &&& all_upper(r.0)
    &&& r.1.len() > 0
    &&& r.1[0] == '/'
    &&& !r.1.contains('?')
    &&& r.3 < 10
    &&& r.4 < 10
}

/// Writing valid parts as a request line and reading it gives the same parts back; in
/// particular a method token outside the known ones comes back unchanged.
pub proof fn lemma_request_parts_round_trip(r: RawRequestLine)
    requires
        valid_parts(r),
    ensures
        parse_request_line_spec(request_line_text(r)) == Some(r),
{
    let line = request_line_text(r);
    let n = line.len() as int;
    let m = r.0.len() as int;
    let middle = r.1 + (match r.2 {
        Some(q) => seq!['?'] + q,
        None => Seq::<char>::empty(),
    });
    assert(line =~= r.0 + seq![' '] + middle + seq![' ', 'H', 'T', 'T', 'P', '/', digit_char(r.3), '.', digit_char(r.4), '\r', '\n']);
    assert(n == m + 1 + middle.len() + 11);
    assert(version_suffix_ok(line));
    assert(digit_value(line[n - 5]) == r.3);
    assert(digit_value(line[n - 3]) == r.4);
    assert forall|k: int| 0 <= k < m implies line[k] != ' ' by {
        assert(line[k] == r.0[k]);
        assert(is_upper(r.0[k]));
    }
    assert(line[m] == ' ');
    lemma_find_first(line, ' ', 0, m);
    assert(line.subrange(0, m) =~= r.0);
    assert(line.subrange(m + 1, n - 11) =~= middle);
    let p = r.1.len() as int;
    assert forall|k: int| 0 <= k < p implies middle[k] != '?' by {
        assert(middle[k] == r.1[k]);
    }
    match r.2 {
        Some(q) => {
            assert(middle[p] == '?');
            lemma_find_first(middle, '?', 0, p);
            assert(middle.subrange(0, p) =~= r.1);
            assert(middle.subrange(p + 1, middle.len() as int) =~= q);
        },
        None => {
            assert(middle =~= r.1);
            if find_from(middle, '?', 0) is Some {
                lemma_find_from_some(middle, '?', 0);
                let k = find_from(middle, '?', 0)->0;
                assert(r.1[k] == '?');
            }
        },
    }
}

} // verus!
