//! What a request handler writes: the responses of the file server and of
//! its directory listing, and the interface that the server calls once per
//! request. Reading files and directories is left to the handler's owner.
use vstd::prelude::*;

use crate::headers::add_value;
use crate::request::Request;
use crate::response::{head_text, int_text, nat_text, push_int, Response, ResponseError, ResponseView};
use crate::text::{append_str, chars_of, push_char};
use vstd::utf8::encode_utf8;

verus! {

/// Serves files only.
pub struct FileMode;

/// Serves files and lists directories.
pub struct DirectoryMode;

/// Called once for each request that was read whole; the response is sent when it returns.
/// A handler writes into the response and leaves the bytes there: what it takes out with
/// `Response::flush` is not sent.
pub trait Handler {
    fn handle(&self, req: &mut Request, res: &mut Response);
}

/// What looking up the requested resource found.
#[derive(Debug, PartialEq, Eq, Structural, Clone, Copy)]
pub enum Lookup {
    /// Nothing is there, or the path leaves the root.
    Missing,
    /// The lookup failed for another reason.
    Failed,
    File,
    Directory,
}

/// The response a file server sends.
#[derive(Debug, PartialEq, Eq, Structural, Clone, Copy)]
pub enum Reply {
    NotFound,
    ServerError,
    SendFile,
    ListDirectory,
}

/// A file is sent; a directory is listed when directories are listed, else not found; a
/// missing resource is not found; any other failure is a server error.
pub fn reply_for(lookup: Lookup, lists_directories: bool) -> (r: Reply)
    ensures
        r == match lookup {
            Lookup::Missing => Reply::NotFound,
            Lookup::Failed => Reply::ServerError,
            Lookup::File => Reply::SendFile,
            Lookup::Directory => if lists_directories {
                Reply::ListDirectory
            } else {
                Reply::NotFound
            },
        },
{
    match lookup {
        Lookup::Missing => Reply::NotFound,
        Lookup::Failed => Reply::ServerError,
        Lookup::File => Reply::SendFile,
        Lookup::Directory => if lists_directories {
            Reply::ListDirectory
        } else {
            Reply::NotFound
        },
    }
}

/// The MIME type registered for the extension of a path, as `Path::extension` finds it.
pub uninterp spec fn mime_for_path_of(path: Seq<char>) -> Option<Seq<char>>;

/// Relies on `conduit_mime_types::mime_for_path`: the path's extension looked up in a table
/// built into that crate.
#[verifier::external_body]
fn mime_for_path(path: &str) -> (r: Option<String>)
    ensures
        match r {
            Some(m) => mime_for_path_of(path@) == Some(m@),
            None => mime_for_path_of(path@) is None,
        },
{
    conduit_mime_types::mime_for_path(std::path::Path::new(path)).map(|m| m.to_owned())
}

/// The content type of a file: the MIME type of its extension, else `text/plain`.
pub open spec fn content_type_of(p: Seq<char>) -> Seq<char> {
    match mime_for_path_of(p) {
        Some(m) => m,
        None => "text/plain"@,
    }
}

/// The content type of the file at `path`: by its extension, else `text/plain`.
pub fn content_type_for(path: &str) -> (r: String)
    ensures
        r@ == content_type_of(path@),
{
    match mime_for_path(path) {
        Some(m) => m,
        None => "text/plain".to_owned(),
    }
}

/// The response after `start`: started, with the head after the earlier output.
pub open spec fn started(v: ResponseView) -> ResponseView {
    ResponseView { started: true, output: v.output + encode_utf8(head_text(v)), ..v }
}

/// `{status} - {description}`: the body of an error response.
pub open spec fn error_text(status: i32, description: Seq<char>) -> Seq<char> {
    int_text(status as int) + seq![' ', '-', ' '] + description
}

pub fn error_body(status: i32, description: &str) -> (r: String)
    ensures
        r@ == error_text(status, description@),
{
    let mut out = String::new();
    push_int(&mut out, status);
    push_char(&mut out, ' ');
    push_char(&mut out, '-');
    push_char(&mut out, ' ');
    append_str(&mut out, description);
    out
}

/// Sends `{status} {description}` with the body `{status} - {description}`. Refused, and
/// nothing changes, when the response has started already.
pub fn send_error(res: &mut Response, status: i32, description: &str) -> (r: Result<
    (),
    ResponseError,
>)
    requires
        old(res).wf(),
    ensures
        final(res).wf(),
        if old(res)@.started {
            r == Err::<(), ResponseError>(ResponseError::HeadersAlreadyWritten) && final(res)@
                == old(res)@
        } else {
            r is Ok && final(res)@ == ({
                let s = started(
                    ResponseView { status: status, status_text: description@, ..old(res)@ },
                );
                ResponseView {
                    output: s.output + encode_utf8(error_text(status, description@)),
                    ..s
                }
            })
        },
{
    match res.with_status(status, description) {
        Ok(()) => {},
        Err(e) => return Err(e),
    }
    match res.start() {
        Ok(()) => {},
        Err(e) => return Err(e),
    }
    let body = error_body(status, description);
    match res.write(body.as_str().as_bytes()) {
        Ok(_) => Ok(()),
        Err(e) => Err(e),
    }
}

/// Sends `404 Not Found` with the body `404 - Not Found`.
pub fn send_not_found(res: &mut Response) -> (r: Result<(), ResponseError>)
    requires
        old(res).wf(),
    ensures
        final(res).wf(),
        if old(res)@.started {
            r == Err::<(), ResponseError>(ResponseError::HeadersAlreadyWritten) && final(res)@
                == old(res)@
        } else {
            r is Ok && final(res)@ == ({
                let s = started(
                    ResponseView { status: 404, status_text: "Not Found"@, ..old(res)@ },
                );
                ResponseView {
                    output: s.output + encode_utf8(error_text(404, "Not Found"@)),
                    ..s
                }
            })
        },
{
    send_error(res, 404, "Not Found")
}

/// The headers of a file response: `Connection: close`, its content type and its length.
pub open spec fn file_headers(v: ResponseView, path: Seq<char>, len: u64) -> ResponseView {
    ResponseView {
        headers: add_value(
            add_value(
                add_value(v.headers, "Connection"@, "close"@),
                "Content-Type"@,
                content_type_of(path),
            ),
            "Content-Length"@,
            nat_text(len as nat),
        ),
        ..v
    }
}

/// Starts the response for a file of `len` bytes at `path`; its bytes are to be written
/// after this.
pub fn start_file(res: &mut Response, path: &str, len: u64) -> (r: Result<(), ResponseError>)
    requires
        old(res).wf(),
    ensures
        final(res).wf(),
        if old(res)@.started {
            r == Err::<(), ResponseError>(ResponseError::HeadersAlreadyWritten) && final(res)@
                == old(res)@
        } else {
            r is Ok && final(res)@ == started(file_headers(old(res)@, path@, len))
        },
{
    let mime = content_type_for(path);
    let mut length = String::new();
    push_int_u64(&mut length, len);
    match res.with_header("Connection", "close") {
        Ok(()) => {},
        Err(e) => return Err(e),
    }
    match res.with_header("Content-Type", mime.as_str()) {
        Ok(()) => {},
        Err(e) => return Err(e),
    }
    match res.with_header("Content-Length", length.as_str()) {
        Ok(()) => {},
        Err(e) => return Err(e),
    }
    res.start()
}

fn push_int_u64(out: &mut String, n: u64)
    ensures
        final(out)@ == old(out)@ + nat_text(n as nat),
    decreases n,
{
    if n >= 10 {
        push_int_u64(out, n / 10);
    }
    push_char(out, crate::request_line::digit_char_exec((n % 10) as u8));
}

/// What a listed name links under: nothing for the root, else the path with a `/` at its end.
pub open spec fn listing_prefix(path: Seq<char>) -> Seq<char> {
    if path == seq!['/'] {
        Seq::empty()
    } else if path.len() > 1 && path.last() != '/' {
        path.push('/')
    } else {
        path
    }
}

/// One entry of a listing: a link to the name, a directory's name with a `/` after it.
pub open spec fn listing_item(prefix: Seq<char>, name: Seq<char>, is_dir: bool) -> Seq<char> {
    let shown = if is_dir {
        name.push('/')
    } else {
        name
    };
    "<li><a href=\""@ + prefix + shown + "\">"@ + shown + "</a></li>"@
}

/// The items of the entries with a non-empty name, in order.
pub open spec fn listing_items(prefix: Seq<char>, entries: Seq<(Seq<char>, bool)>) -> Seq<char>
    decreases entries.len(),
{
    if entries.len() == 0 {
        Seq::empty()
    } else {
        let e = entries.last();
        listing_items(prefix, entries.drop_last()) + if e.0.len() == 0 {
            Seq::<char>::empty()
        } else {
            listing_item(prefix, e.0, e.1)
        }
    }
}

/// The HTML page that lists a directory at `path`.
pub open spec fn listing_page(path: Seq<char>, entries: Seq<(Seq<char>, bool)>) -> Seq<char> {
    "<html><body><ul>"@ + listing_items(listing_prefix(path), entries) + "</ul></body></html>"@
}

pub open spec fn entries_view(v: Seq<(String, bool)>) -> Seq<(Seq<char>, bool)> {
    v.map_values(|e: (String, bool)| (e.0@, e.1))
}

/// The listing page of the directory at `path`, whose entries are names with whether each
/// is a directory.
pub fn directory_page(path: &str, entries: &Vec<(String, bool)>) -> (r: String)
    ensures
        r@ == listing_page(path@, entries_view(entries@)),
{
    let v = chars_of(path);
    let n = v.len();
    let prefix = if n == 1 && v[0] == '/' {
        String::new()
    } else if n > 1 && v[n - 1] != '/' {
        let mut p = path.to_owned();
        push_char(&mut p, '/');
        p
    } else {
        path.to_owned()
    };
    assert(n == 1 && v@[0] == '/' ==> path@ =~= seq!['/']);
    assert(prefix@ == listing_prefix(path@));
    let mut out = String::new();
    append_str(&mut out, "<html><body><ul>");
    let ghost ev = entries_view(entries@);
    let mut i: usize = 0;
    assert(ev.take(0) =~= Seq::<(Seq<char>, bool)>::empty());
    while i < entries.len()
        invariant
            i <= entries@.len(),
            ev == entries_view(entries@),
            prefix@ == listing_prefix(path@),
            out@ == "<html><body><ul>"@ + listing_items(prefix@, ev.take(i as int)),
        decreases entries@.len() - i,
    {
        let ghost before = out@;
        assert(ev.take(i + 1).drop_last() =~= ev.take(i as int));
        assert(ev.take(i + 1).last() == (entries@[i as int].0@, entries@[i as int].1));
        let name = &entries[i].0;
        if !name.as_str().is_empty() {
            let mut shown = name.clone();
            if entries[i].1 {
                push_char(&mut shown, '/');
            }
            append_str(&mut out, "<li><a href=\"");
            append_str(&mut out, prefix.as_str());
            append_str(&mut out, shown.as_str());
            append_str(&mut out, "\">");
            append_str(&mut out, shown.as_str());
            append_str(&mut out, "</a></li>");
            assert(out@ =~= before + listing_item(prefix@, name@, entries@[i as int].1));
        } else {
            assert(out@ =~= before + Seq::<char>::empty());
        }
        i = i + 1;
    }
    assert(ev.take(entries@.len() as int) =~= ev);
    append_str(&mut out, "</ul></body></html>");
    out
}

/// Sends the listing page of the directory at `path` as `text/html`.
pub fn send_listing(res: &mut Response, path: &str, entries: &Vec<(String, bool)>) -> (r: Result<
    (),
    ResponseError,
>)
    requires
        old(res).wf(),
    ensures
        final(res).wf(),
        if old(res)@.started {
            r == Err::<(), ResponseError>(ResponseError::HeadersAlreadyWritten) && final(res)@
                == old(res)@
        } else {
            r is Ok && final(res)@ == ({
                let s = started(
                    ResponseView {
                        headers: add_value(
                            old(res)@.headers,
                            "Content-Type"@,
                            "text/html; charset=utf-8"@,
                        ),
                        ..old(res)@
                    },
                );
                ResponseView {
                    output: s.output + encode_utf8(listing_page(path@, entries_view(entries@))),
                    ..s
                }
            })
        },
{
    match res.with_header("Content-Type", "text/html; charset=utf-8") {
        Ok(()) => {},
        Err(e) => return Err(e),
    }
    match res.start() {
        Ok(()) => {},
        Err(e) => return Err(e),
    }
    let page = directory_page(path, entries);
    match res.write(page.as_str().as_bytes()) {
        Ok(_) => Ok(()),
        Err(e) => Err(e),
    }
}

} // verus!
