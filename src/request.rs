//! A request as the handler sees it: method, decoded path and query,
//! version, headers, declared content length and body.
use vstd::prelude::*;

use crate::headers::{first_value, HeaderEntry, Headers};
use crate::query::{parse_query, Query, QueryEntry};
use crate::request_line::{
    digit_value, digit_value_exec, is_digit, is_digit_exec, method_for, opt_view, Method,
    ParseError, RequestLine,
};
use crate::text::{chars_of, split, split_of, string_of};

verus! {

/// What `%XX`-decoding a string gives, the decoded bytes read as UTF-8 with bad sequences
/// replaced.
pub uninterp spec fn percent_decoded(s: Seq<char>) -> Seq<char>;

/// Relies on url's `percent_encoding::percent_decode` followed by `decode_utf8_lossy`: the
/// result depends on the text alone, and a text without `%` comes back as it was (bytes
/// other than `%` pass through, and valid UTF-8 is kept).
#[verifier::external_body]
pub(crate) fn percent_decode(s: &str) -> (r: String)
    ensures
        r@ == percent_decoded(s@),
        !s@.contains('%') ==> r@ == s@,
{
    url::percent_encoding::percent_decode(s.as_bytes()).decode_utf8_lossy().into_owned()
}

/// The number that a string of decimal digits writes.
pub open spec fn decimal_value(s: Seq<char>) -> int
    decreases s.len(),
{
    if s.len() == 0 {
        0
    } else {
        decimal_value(s.drop_last()) * 10 + digit_value(s.last())
    }
}

pub open spec fn all_digits(s: Seq<char>) -> bool {
    forall|i: int| 0 <= i < s.len() ==> is_digit(#[trigger] s[i])
}

/// The `u64` that `s` writes in decimal: one or more digits, and no more than `u64::MAX`.
pub open spec fn parse_u64_spec(s: Seq<char>) -> Option<u64> {
    if s.len() > 0 && all_digits(s) && decimal_value(s) <= u64::MAX {
        Some(decimal_value(s) as u64)
    } else {
        None
    }
}

proof fn lemma_decimal_grows(s: Seq<char>, i: int)
    requires
        0 <= i <= s.len(),
    ensures
        0 <= decimal_value(s.take(i)) <= decimal_value(s),
    decreases s.len(),
{
    if s.len() > 0 {
        if i == s.len() {
            assert(s.take(i) =~= s);
            lemma_decimal_grows(s.drop_last(), s.len() - 1);
            assert(s.drop_last().take(s.len() - 1) =~= s.drop_last());
        } else {
            lemma_decimal_grows(s.drop_last(), i);
            assert(s.drop_last().take(i) =~= s.take(i));
        }
        let a = decimal_value(s.drop_last());
        let d = digit_value(s.last()) as int;
        assert(a <= a * 10 + d) by (nonlinear_arith)
            requires
                a >= 0,
                d >= 0,
        ;
    }
}

/// Reads an unsigned decimal integer: one or more ASCII digits that fit in a `u64`.
pub fn parse_u64(s: &str) -> (r: Option<u64>)
    ensures
        r == parse_u64_spec(s@),
{
    let v = chars_of(s);
    let n = v.len();
    if n == 0 {
        return None;
    }
    let mut acc: u64 = 0;
    let mut i: usize = 0;
    assert(v@.take(0) =~= Seq::<char>::empty());
    while i < n
        invariant
            n == v@.len(),
            v@ == s@,
            i <= n,
            all_digits(v@.take(i as int)),
            acc as int == decimal_value(v@.take(i as int)),
        decreases n - i,
    {
        let c = v[i];
        assert(v@.take(i + 1).drop_last() =~= v@.take(i as int));
        assert(v@.take(i + 1).last() == c);
        if !is_digit_exec(c) {
            assert(!all_digits(v@)) by {
                assert(v@[i as int] == c);
            }
            return None;
        }
        let d = digit_value_exec(c);
        if acc > (u64::MAX - d as u64) / 10 {
            proof {
                lemma_decimal_grows(v@, i + 1);
                assert(acc * 10 + d > u64::MAX) by (nonlinear_arith)
                    requires
                        acc > (u64::MAX - d as u64) / 10,
                        d <= 9,
                ;
            }
            return None;
        }
        assert(acc * 10 + d <= u64::MAX) by (nonlinear_arith)
            requires
                acc <= (u64::MAX - d as u64) / 10,
                d <= 9,
        ;
        acc = acc * 10 + d as u64;
        i = i + 1;
        assert forall|k: int| 0 <= k < i implies is_digit(#[trigger] v@.take(i as int)[k]) by {
            if k < i - 1 {
                assert(v@.take(i as int)[k] == v@.take(i - 1)[k]);
            }
        }
    }
    assert(v@.take(n as int) =~= v@);
    Some(acc)
}

/// The content length that the headers declare: absent without `Content-Length`, else its
/// first value read as a decimal number; `None` when that value is not one.
pub open spec fn declared_length(h: Seq<HeaderEntry>) -> Option<Option<u64>> {
    match first_value(h, "Content-Length"@) {
        None => Some(None),
        Some(v) => match parse_u64_spec(v) {
            Some(n) => Some(Some(n)),
            None => None,
        },
    }
}

/// The path's segments between slashes, without empty and `.` segments.
pub open spec fn kept_segments(segs: Seq<Seq<char>>) -> Seq<Seq<char>>
    decreases segs.len(),
{
    if segs.len() == 0 {
        Seq::empty()
    } else {
        let s = segs.last();
        kept_segments(segs.drop_last()) + if s.len() == 0 || s == seq!['.'] {
            Seq::<Seq<char>>::empty()
        } else {
            seq![s]
        }
    }
}

/// The segments that name a resource under a root: `None` when one of them is `..`.
pub open spec fn path_segments(path: Seq<char>) -> Option<Seq<Seq<char>>> {
    if split(path, '/').contains(seq!['.', '.']) {
        None
    } else {
        Some(kept_segments(split(path, '/')))
    }
}

/// What a request holds.
pub struct RequestView {
    pub method: Seq<char>,
    pub path: Seq<char>,
    pub query: Option<Seq<QueryEntry>>,
    pub version: (u8, u8),
    pub headers: Seq<HeaderEntry>,
    pub content_length: Option<u64>,
    pub body: Seq<u8>,
}

/// One HTTP request.
#[derive(Debug)]
pub struct Request {
    method: Method,
    path: String,
    query: Option<Query>,
    major: u8,
    minor: u8,
    headers: Headers,
    content_length: Option<u64>,
    body: Vec<u8>,
}

pub open spec fn opt_query_view(q: Option<Query>) -> Option<Seq<QueryEntry>> {
    match q {
        Some(q) => Some(q@),
        None => None,
    }
}

impl View for Request {
    type V = RequestView;

    closed spec fn view(&self) -> RequestView {
        RequestView {
            method: self.method@,
            path: self.path@,
            query: opt_query_view(self.query),
            version: (self.major, self.minor),
            headers: self.headers@,
            content_length: self.content_length,
            body: self.body@,
        }
    }
}

/// The request that a request line's parts read as, with the path and query given already
/// decoded: no headers yet, no content length, no body. `None` when the query is malformed.
pub open spec fn request_of(
    method: Seq<char>,
    path: Seq<char>,
    query: Option<Seq<char>>,
    major: u8,
    minor: u8,
) -> Option<RequestView> {
    let base = RequestView {
        method,
        path,
        query: None,
        version: (major, minor),
        headers: Seq::empty(),
        content_length: None,
        body: Seq::empty(),
    };
    match query {
        None => Some(base),
        Some(q) => match parse_query(q) {
            Some(e) => Some(RequestView { query: Some(e), ..base }),
            None => None,
        },
    }
}

pub open spec fn decoded_query(q: Option<Seq<char>>) -> Option<Seq<char>> {
    match q {
        Some(q) => Some(percent_decoded(q)),
        None => None,
    }
}

impl Request {
    /// The method is the one its token reads as, headers and query are well formed.
    pub closed spec fn wf(&self) -> bool {
        &&& method_for(self.method@, self.method)
        &&& self.headers.wf()
        &&& match self.query {
            Some(q) => q.wf(),
            None => true,
        }
    }

    /// The request of a request line whose path and query have been decoded: `path` and
    /// `query` stand for the line's own. The query is read into its map; a malformed one is
    /// refused.
    pub fn from_parts(line: RequestLine, path: String, query: Option<String>) -> (r: Result<
        Request,
        ParseError,
    >)
        requires
            line.wf(),
        ensures
            match request_of(line@.0, path@, opt_view(query), line@.3, line@.4) {
                Some(v) => r is Ok && r->Ok_0@ == v && r->Ok_0.wf(),
                None => r == Err::<Request, ParseError>(ParseError::MalformedQuery),
            },
    {
        let (method, _raw_path, _raw_query, major, minor) = line.into_parts();
        let parsed = match query {
            Some(q) => match Query::from_str(q.as_str()) {
                Ok(m) => Some(m),
                Err(_) => return Err(ParseError::MalformedQuery),
            },
            None => None,
        };
        Ok(
            Request {
                method,
                path,
                query: parsed,
                major,
                minor,
                headers: Headers::new(),
                content_length: None,
                body: Vec::new(),
            },
        )
    }

    /// The request of a parsed request line: its path and query are percent-decoded, then
    /// read as `from_parts` reads them.
    pub fn from_line(line: RequestLine) -> (r: Result<Request, ParseError>)
        requires
            line.wf(),
        ensures
            match request_of(
                line@.0,
                percent_decoded(line@.1),
                decoded_query(line@.2),
                line@.3,
                line@.4,
            ) {
                Some(v) => r is Ok && r->Ok_0@ == v && r->Ok_0.wf(),
                None => r == Err::<Request, ParseError>(ParseError::MalformedQuery),
            },
    {
        let path = percent_decode(line.path());
        let query = match line.query() {
            Some(q) => Some(percent_decode(q)),
            None => None,
        };
        Request::from_parts(line, path, query)
    }

    /// Takes the complete header block; the content length is read from `Content-Length`,
    /// and a value there that is not an unsigned decimal number is refused.
    pub fn finish_headers(&mut self, headers: Headers) -> (r: Result<(), ParseError>)
        requires
            old(self).wf(),
            headers.wf(),
        ensures
            match declared_length(headers@) {
                Some(n) => r is Ok && final(self).wf() && final(self)@ == (RequestView {
                    headers: headers@,
                    content_length: n,
                    ..old(self)@
                }),
                None => r == Err::<(), ParseError>(ParseError::InvalidContentLength)
                    && final(self).wf() && final(self)@ == old(self)@,
            },
    {
        let length = match headers.get("Content-Length") {
            Some(v) => match parse_u64(v.as_str()) {
                Some(n) => Some(n),
                None => return Err(ParseError::InvalidContentLength),
            },
            None => None,
        };
        self.headers = headers;
        self.content_length = length;
        Ok(())
    }

    /// Sets the body bytes read after the header block.
    pub fn set_body(&mut self, body: Vec<u8>)
        requires
            old(self).wf(),
        ensures
            final(self).wf(),
            final(self)@ == (RequestView { body: body@, ..old(self)@ }),
    {
        self.body = body;
    }

    pub fn method(&self) -> (r: &Method)
        requires
            self.wf(),
        ensures
            method_for(self@.method, *r),
    {
        &self.method
    }

    /// The decoded path.
    pub fn path(&self) -> (r: &str)
        ensures
            r@ == self@.path,
    {
        self.path.as_str()
    }

    /// The path's segments, to be joined under a root: empty and `.` segments are left out,
    /// and a path with a `..` segment names nothing (`None`).
    pub fn path_components(&self) -> (r: Option<Vec<String>>)
        ensures
            match path_segments(self@.path) {
                Some(segs) => r is Some && r->0@.map_values(|s: String| s@) == segs,
                None => r is None,
            },
    {
        let v = chars_of(self.path.as_str());
        let n = v.len();
        let pieces = split_of(&v, 0, n, '/');
        let ghost ps = pieces@.map_values(|p: Vec<char>| p@);
        assert(v@.subrange(0, n as int) =~= v@);
        let mut out: Vec<String> = Vec::new();
        let mut i: usize = 0;
        assert(ps.take(0) =~= Seq::<Seq<char>>::empty());
        while i < pieces.len()
            invariant
                i <= pieces@.len(),
                ps == pieces@.map_values(|p: Vec<char>| p@),
                ps == split(self@.path, '/'),
                !ps.take(i as int).contains(seq!['.', '.']),
                out@.map_values(|s: String| s@) == kept_segments(ps.take(i as int)),
            decreases pieces@.len() - i,
        {
            let piece = &pieces[i];
            let ghost before = out@.map_values(|s: String| s@);
            assert(ps.take(i + 1).drop_last() =~= ps.take(i as int));
            assert(ps.take(i + 1).last() == piece@);
            let k = piece.len();
            if k == 2 && piece[0] == '.' && piece[1] == '.' {
                assert(piece@ =~= seq!['.', '.']);
                assert(ps[i as int] == piece@);
                return None;
            }
            assert(piece@ != seq!['.', '.']);
            if k == 0 || (k == 1 && piece[0] == '.') {
                assert(k == 1 ==> piece@ =~= seq!['.']);
                assert(out@.map_values(|s: String| s@) =~= before + Seq::<Seq<char>>::empty());
            } else {
                assert(piece@ != seq!['.']) by {
                    if k == 1 {
                        assert(piece@[0] != '.');
                    }
                }
                let seg = string_of(piece, 0, k);
                assert(piece@.subrange(0, k as int) =~= piece@);
                out.push(seg);
                assert(out@.map_values(|s: String| s@) =~= before + seq![piece@]);
            }
            i = i + 1;
            assert(!ps.take(i as int).contains(seq!['.', '.'])) by {
                if ps.take(i as int).contains(seq!['.', '.']) {
                    let j = choose|j: int| 0 <= j < i && ps.take(i as int)[j] == seq!['.', '.'];
                    if j < i - 1 {
                        assert(ps.take(i - 1)[j] == ps.take(i as int)[j]);
                    }
                }
            }
        }
        assert(ps.take(pieces@.len() as int) =~= ps);
        Some(out)
    }

    /// The query map, absent when the request line had no `?`.
    pub fn query(&self) -> (r: &Option<Query>)
        ensures
            opt_query_view(*r) == self@.query,
    {
        &self.query
    }

    /// Major and minor version.
    pub fn http_version(&self) -> (r: (u8, u8))
        ensures
            r == self@.version,
    {
        (self.major, self.minor)
    }

    pub fn headers(&self) -> (r: &Headers)
        requires
            self.wf(),
        ensures
            r@ == self@.headers,
            r.wf(),
    {
        &self.headers
    }

    pub fn content_length(&self) -> (r: Option<u64>)
        ensures
            r == self@.content_length,
    {
        self.content_length
    }

    pub fn body(&self) -> (r: &[u8])
        ensures
            r@ == self@.body,
    {
        self.body.as_slice()
    }
}

} // verus!
