//! Reading one request from a connection, line by line: first the request
//! line, then header lines up to a blank one. The caller reads the lines
//! and hands them over; the parser decides what each one means.
use vstd::prelude::*;

use crate::headers::{first_value, parse_line, HeaderEntry, Headers};
use crate::request::{
    declared_length, decoded_query, parse_u64_spec, percent_decode, percent_decoded, request_of,
    Request, RequestView,
};
use crate::request_line::{parse_request_line, parse_request_line_spec, Method, ParseError};
use crate::text::{chars_of, string_of, trim};

verus! {

/// Events of a parse, for whoever wants to follow it. The handler follows the parse; what it
/// does with an event does not change the parse.
pub trait ParserHandler {
    fn on_message_begin(&mut self);

    fn on_method(&mut self, method: &Method);

    fn on_url(&mut self, url: &str);

    fn on_query(&mut self, query: &str);

    fn on_http_version(&mut self, major: u8, minor: u8);

    fn on_header(&mut self, line: &str);

    fn on_headers_complete(&mut self);
}

/// Follows nothing.
impl ParserHandler for () {
    fn on_message_begin(&mut self) {
    }

    fn on_method(&mut self, _method: &Method) {
    }

    fn on_url(&mut self, _url: &str) {
    }

    fn on_query(&mut self, _query: &str) {
    }

    fn on_http_version(&mut self, _major: u8, _minor: u8) {
    }

    fn on_header(&mut self, _line: &str) {
    }

    fn on_headers_complete(&mut self) {
    }
}

/// Where the parse stands.
#[derive(Debug, PartialEq, Eq, Structural, Clone, Copy)]
pub enum Stage {
    /// Waiting for the request line.
    RequestLine,
    /// Reading header lines.
    Headers,
    /// The blank line after the headers was read; the request is whole.
    Complete,
    /// The peer closed the connection before sending anything.
    NoRequest,
    /// The request was malformed.
    Failed,
}

/// What a line, or the end of input, did to the parse.
#[derive(Debug, PartialEq, Eq, Structural, Clone, Copy)]
pub enum Progress {
    /// More lines are needed.
    NeedMore,
    /// The request is whole.
    Complete,
    /// Nothing was sent: close the connection without a word.
    NoRequest,
}

/// A line without its line end: a trailing `\n`, then a trailing `\r`, are removed.
pub open spec fn strip_line_end(s: Seq<char>) -> Seq<char> {
    let t = if s.len() > 0 && s.last() == '\n' {
        s.drop_last()
    } else {
        s
    };
    if t.len() > 0 && t.last() == '\r' {
        t.drop_last()
    } else {
        t
    }
}

/// One event sent to the parser's handler, with what it was given.
pub enum ParseEvent {
    MessageBegin,
    /// The method token.
    Method(Seq<char>),
    /// The decoded path.
    Url(Seq<char>),
    /// The decoded query text.
    Query(Seq<char>),
    Version(u8, u8),
    /// A header line without its line end.
    Header(Seq<char>),
    HeadersComplete,
}

/// The events of a request line that reads as `method`, `path` (decoded), `query`
/// (decoded) and version, in the order they are sent: no query event without a `?`.
pub open spec fn line_events(
    method: Seq<char>,
    path: Seq<char>,
    query: Option<Seq<char>>,
    major: u8,
    minor: u8,
) -> Seq<ParseEvent> {
    seq![ParseEvent::MessageBegin, ParseEvent::Method(method), ParseEvent::Url(path)] + match query {
        Some(q) => seq![ParseEvent::Query(q)],
        None => Seq::<ParseEvent>::empty(),
    } + seq![ParseEvent::Version(major, minor)]
}

/// What a parser holds: its stage, the request so far, the headers read so far, and the
/// events sent to its handler so far.
pub struct ParserView {
    pub stage: Stage,
    pub request: Option<RequestView>,
    pub headers: Seq<HeaderEntry>,
    pub events: Seq<ParseEvent>,
}

/// The view after the header block ended, the headers moved into the request: `None` when
/// the content length is invalid.
pub open spec fn after_headers(v: ParserView) -> Option<ParserView> {
    match declared_length(v.headers) {
        Some(n) => Some(
            ParserView {
                stage: Stage::Complete,
                request: Some(
                    RequestView { headers: v.headers, content_length: n, ..v.request->0 },
                ),
                headers: Seq::empty(),
                events: v.events.push(ParseEvent::HeadersComplete),
            },
        ),
        None => None,
    }
}

/// A `Content-Length` whose first value is not an unsigned decimal number ends the header
/// block in failure; one that is becomes the request's content length; without one there is
/// none.
pub proof fn lemma_content_length(v: ParserView)
    ensures
        first_value(v.headers, "Content-Length"@) is None ==> after_headers(v) is Some
            && after_headers(v)->0.request->0.content_length is None,
        match first_value(v.headers, "Content-Length"@) {
            Some(t) => match parse_u64_spec(t) {
                Some(n) => after_headers(v) is Some && after_headers(v)->0.request->0.content_length
                    == Some(n),
                None => after_headers(v) is None,
            },
            None => true,
        },
{
}

/// A parser of one request.
pub struct Parser<H> {
    handler: H,
    stage: Stage,
    request: Option<Request>,
    headers: Headers,
    events: Ghost<Seq<ParseEvent>>,
}

impl<H> View for Parser<H> {
    type V = ParserView;

    closed spec fn view(&self) -> ParserView {
        ParserView {
            stage: self.stage,
            request: match self.request {
                Some(r) => Some(r@),
                None => None,
            },
            headers: self.headers@,
            events: self.events@,
        }
    }
}

/// Whether `v[from..to]` is all whitespace.
fn blank(v: &Vec<char>, from: usize, to: usize) -> (r: bool)
    requires
        from <= to <= v@.len(),
    ensures
        r == (trim(v@.subrange(from as int, to as int)).len() == 0),
{
    let t = crate::text::trimmed_of(v, from, to);
    t.as_str().is_empty()
}

impl<H: ParserHandler> Parser<H> {
    pub closed spec fn wf(&self) -> bool {
        &&& self.headers.wf()
        &&& (self.stage == Stage::Headers || self.stage == Stage::Complete) ==> (
        self.request is Some && self.request->0.wf())
    }

    /// A parser waiting for the request line, reporting to `handler`.
    pub fn request(handler: H) -> (r: Parser<H>)
        ensures
            r.wf(),
            r@ == (ParserView {
                stage: Stage::RequestLine,
                request: None,
                headers: Seq::empty(),
                events: Seq::empty(),
            }),
    {
        Parser {
            handler,
            stage: Stage::RequestLine,
            request: None,
            headers: Headers::new(),
            events: Ghost(Seq::empty()),
        }
    }

    pub fn stage(&self) -> (r: Stage)
        ensures
            r == self@.stage,
    {
        self.stage
    }

    /// Takes one line as read from the connection, with its line end. The first is the
    /// request line; after it come header lines, until one that is blank once its line end
    /// is removed and it is trimmed. A malformed line fails the parse.
    ///
    /// The handler hears of a request line that reads whole (`line_events`), of each header
    /// line, and of the end of a header block that holds a valid content length; a failure
    /// sends no event.
    pub fn feed_line(&mut self, line: &str) -> (r: Result<Progress, ParseError>)
        requires
            old(self).wf(),
            old(self)@.stage == Stage::RequestLine || old(self)@.stage == Stage::Headers,
        ensures
            final(self).wf(),
            old(self)@.stage == Stage::RequestLine ==> match parse_request_line_spec(line@) {
                None => r == Err::<Progress, ParseError>(ParseError::MalformedRequestLine)
                    && final(self)@.stage == Stage::Failed && final(self)@.events == old(self)@.events,
                Some(p) => {
                    &&& !p.1.contains('%') ==> percent_decoded(p.1) == p.1
                    &&& (p.2 is Some && !p.2->0.contains('%')) ==> percent_decoded(p.2->0) == p.2->0
                    &&& match request_of(
                        p.0,
                        percent_decoded(p.1),
                        decoded_query(p.2),
                        p.3,
                        p.4,
                    ) {
                        None => r == Err::<Progress, ParseError>(ParseError::MalformedQuery)
                            && final(self)@.stage == Stage::Failed && final(self)@.events == old(self)@.events,
                        Some(v) => r == Ok::<Progress, ParseError>(Progress::NeedMore) && final(self)@ == (ParserView {
                            stage: Stage::Headers,
                            request: Some(v),
                            headers: Seq::empty(),
                            events: old(self)@.events + line_events(
                                p.0,
                                percent_decoded(p.1),
                                decoded_query(p.2),
                                p.3,
                                p.4,
                            ),
                        }),
                    }
                },
            },
            old(self)@.stage == Stage::Headers ==> if trim(strip_line_end(line@)).len() == 0 {
                match after_headers(old(self)@) {
                    Some(v) => r == Ok::<Progress, ParseError>(Progress::Complete) && final(self)@
                        == v,
                    None => r == Err::<Progress, ParseError>(ParseError::InvalidContentLength)
                        && final(self)@.stage == Stage::Failed && final(self)@.events == old(self)@.events,
                }
            } else {
                match parse_line(old(self)@.headers, strip_line_end(line@)) {
                    Some(e) => r == Ok::<Progress, ParseError>(Progress::NeedMore) && final(self)@
                        == (ParserView {
                        headers: e,
                        events: old(self)@.events.push(ParseEvent::Header(strip_line_end(line@))),
                        ..old(self)@
                    }),
                    None => r == Err::<Progress, ParseError>(ParseError::MalformedHeader) && final(self)@.stage == Stage::Failed && final(self)@.events == old(self)@.events,
                }
            },
    {
        if self.stage == Stage::RequestLine {
            let parsed = match parse_request_line(line) {
                Ok(l) => l,
                Err(e) => {
                    self.stage = Stage::Failed;
                    return Err(e);
                },
            };
            let ghost ev0 = self.events@;
            let ghost p = parsed@;
            let path = percent_decode(parsed.path());
            let query = match parsed.query() {
                Some(q) => Some(percent_decode(q)),
                None => None,
            };
            let query_copy = match &query {
                Some(q) => Some(q.clone()),
                None => None,
            };
            let req = match Request::from_parts(parsed, path.clone(), query_copy) {
                Ok(req) => req,
                Err(e) => {
                    self.stage = Stage::Failed;
                    return Err(e);
                },
            };
            self.handler.on_message_begin();
            self.events = Ghost(self.events@.push(ParseEvent::MessageBegin));
            self.handler.on_method(req.method());
            self.events = Ghost(self.events@.push(ParseEvent::Method(req@.method)));
            self.handler.on_url(path.as_str());
            self.events = Ghost(self.events@.push(ParseEvent::Url(path@)));
            match &query {
                Some(q) => {
                    self.handler.on_query(q.as_str());
                    self.events = Ghost(self.events@.push(ParseEvent::Query(q@)));
                },
                None => {},
            }
            let (major, minor) = req.http_version();
            self.handler.on_http_version(major, minor);
            self.events = Ghost(self.events@.push(ParseEvent::Version(major, minor)));
            proof {
                let q = crate::request_line::opt_view(query);
                assert(q == decoded_query(p.2));
                assert(self.events@ =~= ev0 + line_events(p.0, path@, q, major, minor));
            }
            self.request = Some(req);
            self.headers = Headers::new();
            self.stage = Stage::Headers;
            return Ok(Progress::NeedMore);
        }
        let v = chars_of(line);
        let mut end = v.len();
        if end > 0 && v[end - 1] == '\n' {
            end = end - 1;
        }
        if end > 0 && v[end - 1] == '\r' {
            end = end - 1;
        }
        assert(v@.subrange(0, end as int) == strip_line_end(line@)) by {
            let s = line@;
            let t = if s.len() > 0 && s.last() == '\n' {
                s.drop_last()
            } else {
                s
            };
            assert(t =~= v@.subrange(0, t.len() as int));
            assert(strip_line_end(s) =~= v@.subrange(0, end as int));
        }
        if blank(&v, 0, end) {
            return self.end_headers();
        }
        let body = string_of(&v, 0, end);
        match self.headers.parse(body.as_str()) {
            Ok(()) => {
                self.handler.on_header(body.as_str());
                self.events = Ghost(self.events@.push(ParseEvent::Header(body@)));
                Ok(Progress::NeedMore)
            },
            Err(_) => {
                self.stage = Stage::Failed;
                Err(ParseError::MalformedHeader)
            },
        }
    }

    fn end_headers(&mut self) -> (r: Result<Progress, ParseError>)
        requires
            old(self).wf(),
            old(self)@.stage == Stage::Headers,
        ensures
            final(self).wf(),
            match after_headers(old(self)@) {
                Some(v) => r == Ok::<Progress, ParseError>(Progress::Complete) && final(self)@ == v,
                None => r == Err::<Progress, ParseError>(ParseError::InvalidContentLength)
                    && final(self)@.stage == Stage::Failed && final(self)@.events == old(self)@.events,
            },
    {
        let mut taken = Headers::new();
        core::mem::swap(&mut taken, &mut self.headers);
        let mut req = self.request.take().unwrap();
        match req.finish_headers(taken) {
            Ok(()) => {
                self.request = Some(req);
                self.stage = Stage::Complete;
                self.handler.on_headers_complete();
                self.events = Ghost(self.events@.push(ParseEvent::HeadersComplete));
                Ok(Progress::Complete)
            },
            Err(e) => {
                self.stage = Stage::Failed;
                Err(e)
            },
        }
    }

    /// The input ended. Before the request line there is no request, and the handler hears
    /// nothing; while reading headers the block ends there as at a blank line.
    pub fn end_of_input(&mut self) -> (r: Result<Progress, ParseError>)
        requires
            old(self).wf(),
            old(self)@.stage == Stage::RequestLine || old(self)@.stage == Stage::Headers,
        ensures
            final(self).wf(),
            old(self)@.stage == Stage::RequestLine ==> r == Ok::<Progress, ParseError>(
                Progress::NoRequest,
            ) && final(self)@ == (ParserView { stage: Stage::NoRequest, ..old(self)@ }),
            old(self)@.stage == Stage::Headers ==> match after_headers(old(self)@) {
                Some(v) => r == Ok::<Progress, ParseError>(Progress::Complete) && final(self)@ == v,
                None => r == Err::<Progress, ParseError>(ParseError::InvalidContentLength)
                    && final(self)@.stage == Stage::Failed && final(self)@.events == old(self)@.events,
            },
    {
        if self.stage == Stage::RequestLine {
            self.stage = Stage::NoRequest;
            return Ok(Progress::NoRequest);
        }
        self.end_headers()
    }

    /// Gives up the request, once it is whole, and the handler.
    pub fn finish(self) -> (r: (Option<Request>, H))
        requires
            self.wf(),
        ensures
            self@.stage == Stage::Complete ==> r.0 is Some && r.0->0@ == self@.request->0
                && r.0->0.wf(),
            self@.stage != Stage::Complete ==> r.0 is None,
    {
        if self.stage == Stage::Complete {
            (self.request, self.handler)
        } else {
            (None, self.handler)
        }
    }
}

} // verus!
