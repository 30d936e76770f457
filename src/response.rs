//! The response writer: status and headers may change until `start`, which
//! writes the status line and the header block; body bytes may be written
//! only after it, and `start` runs at most once.
//!
//! The bytes for the wire collect in the response, and `flush` hands them
//! over to whoever sends them.
use vstd::prelude::*;

use crate::headers::{entries_wf, serialize_entries, HeaderEntry, Headers};
use crate::request_line::{digit_char, digit_char_exec};
use crate::text::{append_str, push_char};
use vstd::utf8::encode_utf8;

verus! {

/// Decimal digits of `n`.
pub open spec fn nat_text(n: nat) -> Seq<char>
    decreases n,
{
    if n < 10 {
        seq![digit_char(n as u8)]
    } else {
        nat_text(n / 10).push(digit_char((n % 10) as u8))
    }
}

/// `n` in decimal, with a `-` before a negative number.
pub open spec fn int_text(n: int) -> Seq<char> {
    if n < 0 {
        seq!['-'] + nat_text((-n) as nat)
    } else {
        nat_text(n as nat)
    }
}

/// What a response holds: version, status code and text, headers, whether `start` has
/// run, and the bytes not yet handed out by `flush`.
pub struct ResponseView {
    pub version: Seq<char>,
    pub status: i32,
    pub status_text: Seq<char>,
    pub headers: Seq<HeaderEntry>,
    pub started: bool,
    pub output: Seq<u8>,
}

/// `HTTP/{version} {status} {text}` and CRLF.
pub open spec fn status_line(v: ResponseView) -> Seq<char> {
    seq!['H', 'T', 'T', 'P', '/'] + v.version + seq![' '] + int_text(v.status as int) + seq![' ']
        + v.status_text + seq!['\r', '\n']
}

/// What `start` writes: the status line, the header block and a blank line.
pub open spec fn head_text(v: ResponseView) -> Seq<char> {
    status_line(v) + serialize_entries(v.headers) + seq!['\r', '\n']
}

/// A use of the response that its state does not allow.
#[derive(Debug, PartialEq, Eq, Structural, Clone, Copy)]
pub enum ResponseError {
    /// Status, version or headers changed after `start`.
    HeadersAlreadyWritten,
    /// `start` called a second time.
    AlreadyStarted,
    /// Body written or flushed before `start`.
    NotStarted,
}

/// An HTTP response under construction.
#[derive(Debug)]
pub struct Response {
    http_version: String,
    status: i32,
    status_text: String,
    headers: Headers,
    headers_written: bool,
    output: Vec<u8>,
}

impl View for Response {
    type V = ResponseView;

    closed spec fn view(&self) -> ResponseView {
        ResponseView {
            version: self.http_version@,
            status: self.status,
            status_text: self.status_text@,
            headers: self.headers@,
            started: self.headers_written,
            output: self.output@,
        }
    }
}

fn push_nat(out: &mut String, n: u64)
    ensures
        final(out)@ == old(out)@ + nat_text(n as nat),
    decreases n,
{
    if n >= 10 {
        push_nat(out, n / 10);
    }
    push_char(out, digit_char_exec((n % 10) as u8));
}

/// Appends `n` in decimal.
pub fn push_int(out: &mut String, n: i32)
    ensures
        final(out)@ == old(out)@ + int_text(n as int),
{
    if n < 0 {
        push_char(out, '-');
        let m: i64 = n as i64;
        push_nat(out, (0 - m) as u64);
        assert(seq!['-'] + nat_text((-n) as nat) == int_text(n as int));
    } else {
        push_nat(out, n as u64);
    }
}

fn append_bytes(out: &mut Vec<u8>, b: &[u8])
    ensures
        final(out)@ == old(out)@ + b@,
{
    let ghost start = out@;
    let mut i: usize = 0;
    while i < b.len()
        invariant
            i <= b@.len(),
            out@ == start + b@.subrange(0, i as int),
        decreases b@.len() - i,
    {
        out.push(b[i]);
        i = i + 1;
        assert(out@ =~= start + b@.subrange(0, i as int));
    }
    assert(b@.subrange(0, b@.len() as int) =~= b@);
}

impl Response {
    /// The header names are unique and each has a value.
    pub open spec fn wf(&self) -> bool {
        entries_wf(self@.headers)
    }

    /// A response with version `1.0`, status `200 OK`, no headers, not started.
    pub fn new() -> (r: Response)
        ensures
            r.wf(),
            r@ == (ResponseView {
                version: "1.0"@,
                status: 200,
                status_text: "OK"@,
                headers: Seq::empty(),
                started: false,
                output: Seq::empty(),
            }),
    {
        Response {
            http_version: "1.0".to_owned(),
            status: 200,
            status_text: "OK".to_owned(),
            headers: Headers::new(),
            headers_written: false,
            output: Vec::new(),
        }
    }

    /// The HTTP version, such as `1.0`.
    pub fn http_version(&self) -> (r: &str)
        ensures
            r@ == self@.version,
    {
        self.http_version.as_str()
    }

    /// The version as the status line writes it: `HTTP/` and the version.
    pub fn http_version_text(&self) -> (r: String)
        ensures
            r@ == seq!['H', 'T', 'T', 'P', '/'] + self@.version,
    {
        let mut ver = String::new();
        push_char(&mut ver, 'H');
        push_char(&mut ver, 'T');
        push_char(&mut ver, 'T');
        push_char(&mut ver, 'P');
        push_char(&mut ver, '/');
        append_str(&mut ver, self.http_version.as_str());
        ver
    }

    /// Whether `start` has run.
    pub fn headers_written(&self) -> (r: bool)
        ensures
            r == self@.started,
    {
        self.headers_written
    }

    /// Sets the version; refused once `start` has run.
    pub fn with_http_version(&mut self, version: &str) -> (r: Result<(), ResponseError>)
        requires
            old(self).wf(),
        ensures
            final(self).wf(),
            if old(self)@.started {
                r == Err::<(), ResponseError>(ResponseError::HeadersAlreadyWritten) && final(self)@
                    == old(self)@
            } else {
                r is Ok && final(self)@ == (ResponseView { version: version@, ..old(self)@ })
            },
    {
        if self.headers_written {
            return Err(ResponseError::HeadersAlreadyWritten);
        }
        self.http_version = version.to_owned();
        Ok(())
    }

    /// The status code and its text.
    pub fn status(&self) -> (r: (i32, &str))
        ensures
            r.0 == self@.status,
            r.1@ == self@.status_text,
    {
        (self.status, self.status_text.as_str())
    }

    /// Sets the status code and text; refused once `start` has run.
    pub fn with_status(&mut self, status: i32, status_text: &str) -> (r: Result<(), ResponseError>)
        requires
            old(self).wf(),
        ensures
            final(self).wf(),
            if old(self)@.started {
                r == Err::<(), ResponseError>(ResponseError::HeadersAlreadyWritten) && final(self)@
                    == old(self)@
            } else {
                r is Ok && final(self)@ == (ResponseView {
                    status: status,
                    status_text: status_text@,
                    ..old(self)@
                })
            },
    {
        if self.headers_written {
            return Err(ResponseError::HeadersAlreadyWritten);
        }
        self.status = status;
        self.status_text = status_text.to_owned();
        Ok(())
    }

    /// Adds a header value; refused once `start` has run.
    pub fn with_header(&mut self, name: &str, value: &str) -> (r: Result<(), ResponseError>)
        requires
            old(self).wf(),
        ensures
            final(self).wf(),
            if old(self)@.started {
                r == Err::<(), ResponseError>(ResponseError::HeadersAlreadyWritten) && final(self)@
                    == old(self)@
            } else {
                r is Ok && final(self)@ == (ResponseView {
                    headers: crate::headers::add_value(old(self)@.headers, name@, value@),
                    ..old(self)@
                })
            },
    {
        if self.headers_written {
            return Err(ResponseError::HeadersAlreadyWritten);
        }
        self.headers.insert(name, value);
        Ok(())
    }

    /// Writes the status line, the header block and the blank line that ends it, and from
    /// then on takes body bytes. A second call is refused and writes nothing.
    pub fn start(&mut self) -> (r: Result<(), ResponseError>)
        requires
            old(self).wf(),
        ensures
            final(self).wf(),
            if old(self)@.started {
                r == Err::<(), ResponseError>(ResponseError::AlreadyStarted) && final(self)@ == old(
                    self,
                )@
            } else {
                r is Ok && final(self)@ == (ResponseView {
                    started: true,
                    output: old(self)@.output + encode_utf8(head_text(old(self)@)),
                    ..old(self)@
                })
            },
    {
        if self.headers_written {
            return Err(ResponseError::AlreadyStarted);
        }
        let mut head = self.http_version_text();
        push_char(&mut head, ' ');
        push_int(&mut head, self.status);
        push_char(&mut head, ' ');
        append_str(&mut head, self.status_text.as_str());
        push_char(&mut head, '\r');
        push_char(&mut head, '\n');
        let block = self.headers.serialize();
        append_str(&mut head, block.as_str());
        push_char(&mut head, '\r');
        push_char(&mut head, '\n');
        assert(head@ =~= head_text(self@));
        self.headers_written = true;
        append_bytes(&mut self.output, head.as_str().as_bytes());
        Ok(())
    }

    /// Adds body bytes after the head; refused before `start`.
    pub fn write(&mut self, buf: &[u8]) -> (r: Result<usize, ResponseError>)
        requires
            old(self).wf(),
        ensures
            final(self).wf(),
            if old(self)@.started {
                r == Ok::<usize, ResponseError>(buf@.len() as usize) && final(self)@ == (
                ResponseView { output: old(self)@.output + buf@, ..old(self)@ })
            } else {
                r == Err::<usize, ResponseError>(ResponseError::NotStarted) && final(self)@ == old(
                    self,
                )@
            },
    {
        if !self.headers_written {
            return Err(ResponseError::NotStarted);
        }
        append_bytes(&mut self.output, buf);
        Ok(buf.len())
    }

    /// Hands over the bytes written so far, for sending, and keeps none; refused before
    /// `start`.
    pub fn flush(&mut self) -> (r: Result<Vec<u8>, ResponseError>)
        requires
            old(self).wf(),
        ensures
            final(self).wf(),
            if old(self)@.started {
                r is Ok && r->Ok_0@ == old(self)@.output && final(self)@ == (ResponseView {
                    output: Seq::empty(),
                    ..old(self)@
                })
            } else {
                r == Err::<Vec<u8>, ResponseError>(ResponseError::NotStarted) && final(self)@
                    == old(self)@
            },
    {
        if !self.headers_written {
            return Err(ResponseError::NotStarted);
        }
        let mut sent: Vec<u8> = Vec::new();
        core::mem::swap(&mut sent, &mut self.output);
        Ok(sent)
    }

    /// Everything left to send once the handler is done: the head, when `start` has not run,
    /// then the bytes not yet handed out.
    pub fn finish(&mut self) -> (r: Vec<u8>)
        requires
            old(self).wf(),
        ensures
            final(self).wf(),
            final(self)@.started,
            final(self)@.output == Seq::<u8>::empty(),
            r@ == if old(self)@.started {
                old(self)@.output
            } else {
                old(self)@.output + encode_utf8(head_text(old(self)@))
            },
    {
        if !self.headers_written {
            let _ = self.start();
        }
        let mut sent: Vec<u8> = Vec::new();
        core::mem::swap(&mut sent, &mut self.output);
        sent
    }
}

} // verus!
