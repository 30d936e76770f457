use http_server::handler::{
    content_type_for, directory_page, error_body, reply_for, send_error, send_listing,
    send_not_found, start_file, Lookup, Reply,
};
use http_server::headers::{HeaderError, Headers};
use http_server::parser::{Parser, ParserHandler, Progress, Stage};
use http_server::query::{format_query_param, Query, QueryError};
use http_server::request::{parse_u64, Request};
use http_server::request_line::{parse_request_line, Method, ParseError};
use http_server::response::{Response, ResponseError};
use http_server::server::{after_accept_error, AcceptAction, AcceptError, ConfigError, ServerConfig};

fn parse_all(lines: &[&str]) -> Result<Option<Request>, ParseError> {
    let mut parser = Parser::request(());
    for line in lines {
        match parser.feed_line(line)? {
            Progress::NeedMore => {}
            Progress::Complete | Progress::NoRequest => break,
        }
    }
    if parser.stage() == Stage::Headers {
        parser.end_of_input()?;
    }
    Ok(parser.finish().0)
}

fn strings(v: &[&str]) -> Vec<String> {
    v.iter().map(|s| s.to_string()).collect()
}

#[test]
fn get_with_repeated_query_key() {
    let req = parse_all(&["GET /a/b?x=1&x=2 HTTP/1.1\r\n", "\r\n"]).unwrap().unwrap();
    assert_eq!(*req.method(), Method::Get);
    assert_eq!(req.path(), "/a/b");
    let query = req.query().as_ref().unwrap();
    assert_eq!(query.get("x"), Some(strings(&["1", "2"])));
    assert_eq!(req.http_version(), (1, 1));
}

#[test]
fn post_without_query_mark_has_no_query() {
    let req = parse_all(&["POST /submit HTTP/1.0\r\n", "\r\n"]).unwrap().unwrap();
    assert_eq!(*req.method(), Method::Post);
    assert_eq!(req.path(), "/submit");
    assert!(req.query().is_none());
    assert_eq!(req.http_version(), (1, 0));
}

#[test]
fn empty_query_after_mark_is_an_empty_map() {
    let req = parse_all(&["GET /p? HTTP/1.1\r\n", "\r\n"]).unwrap().unwrap();
    let query = req.query().as_ref().unwrap();
    assert_eq!(query.serialize(), "");
}

#[test]
fn content_length_is_read_from_headers() {
    let req = parse_all(&["GET / HTTP/1.1\r\n", "Content-Length: 42\r\n", "\r\n"])
        .unwrap()
        .unwrap();
    assert_eq!(req.content_length(), Some(42));
    assert_eq!(req.headers().get("Content-Length"), Some("42".to_string()));
}

#[test]
fn content_length_absent_is_none() {
    let req = parse_all(&["GET / HTTP/1.1\r\n", "Host: x\r\n", "\r\n"]).unwrap().unwrap();
    assert_eq!(req.content_length(), None);
}

#[test]
fn non_numeric_content_length_is_malformed() {
    let r = parse_all(&["GET / HTTP/1.1\r\n", "Content-Length: abc\r\n", "\r\n"]);
    assert_eq!(r.err(), Some(ParseError::InvalidContentLength));
}

#[test]
fn immediate_close_is_no_request() {
    let mut parser = Parser::request(());
    assert_eq!(parser.end_of_input(), Ok(Progress::NoRequest));
    assert_eq!(parser.stage(), Stage::NoRequest);
    assert!(parser.finish().0.is_none());
}

#[test]
fn end_of_input_ends_header_block() {
    let mut parser = Parser::request(());
    assert_eq!(parser.feed_line("GET /x HTTP/1.1\r\n"), Ok(Progress::NeedMore));
    assert_eq!(parser.feed_line("A: 1\r\n"), Ok(Progress::NeedMore));
    assert_eq!(parser.end_of_input(), Ok(Progress::Complete));
    let req = parser.finish().0.unwrap();
    assert_eq!(req.headers().get("a"), Some("1".to_string()));
}

#[test]
fn malformed_request_line_is_refused() {
    let r = parse_all(&["get / HTTP/1.1\r\n", "\r\n"]);
    assert_eq!(r.err(), Some(ParseError::MalformedRequestLine));
}

#[test]
fn malformed_header_is_refused() {
    let r = parse_all(&["GET / HTTP/1.1\r\n", "NoSeparatorHere\r\n", "\r\n"]);
    assert_eq!(r.err(), Some(ParseError::MalformedHeader));
}

#[test]
fn malformed_query_is_refused() {
    let r = parse_all(&["GET /p?novalue HTTP/1.1\r\n", "\r\n"]);
    assert_eq!(r.err(), Some(ParseError::MalformedQuery));
}

#[test]
fn path_and_query_are_percent_decoded() {
    let req = parse_all(&["GET /a%20b?q=%41%42 HTTP/1.1\r\n", "\r\n"]).unwrap().unwrap();
    assert_eq!(req.path(), "/a b");
    assert_eq!(req.query().as_ref().unwrap().get("q"), Some(strings(&["AB"])));
}

#[test]
fn headers_and_body_are_kept() {
    let mut req = parse_all(&["PUT /f HTTP/1.1\r\n", "Accept: a, b\r\n", "accept: c\r\n", "\r\n"])
        .unwrap()
        .unwrap();
    assert_eq!(*req.method(), Method::Put);
    assert_eq!(
        req.headers().all(),
        vec![("Accept".to_string(), strings(&["a", "b", "c"]))]
    );
    req.set_body(b"xyz".to_vec());
    assert_eq!(req.body(), b"xyz");
}

#[derive(Default)]
struct Recorder {
    events: Vec<String>,
}

impl ParserHandler for Recorder {
    fn on_message_begin(&mut self) {
        self.events.push("begin".to_string());
    }
    fn on_method(&mut self, method: &Method) {
        self.events.push(format!("method {}", method.as_str()));
    }
    fn on_url(&mut self, url: &str) {
        self.events.push(format!("url {}", url));
    }
    fn on_query(&mut self, query: &str) {
        self.events.push(format!("query {}", query));
    }
    fn on_http_version(&mut self, major: u8, minor: u8) {
        self.events.push(format!("version {}.{}", major, minor));
    }
    fn on_header(&mut self, line: &str) {
        self.events.push(format!("header {}", line));
    }
    fn on_headers_complete(&mut self) {
        self.events.push("complete".to_string());
    }
}

#[test]
fn parser_reports_events_in_order() {
    let mut parser = Parser::request(Recorder::default());
    assert_eq!(parser.feed_line("DELETE /r?k=v HTTP/1.1\r\n"), Ok(Progress::NeedMore));
    assert_eq!(parser.feed_line("Host: h\r\n"), Ok(Progress::NeedMore));
    assert_eq!(parser.feed_line("\r\n"), Ok(Progress::Complete));
    let (req, recorder) = parser.finish();
    assert!(req.is_some());
    assert_eq!(
        recorder.events,
        strings(&[
            "begin",
            "method DELETE",
            "url /r",
            "query k=v",
            "version 1.1",
            "header Host: h",
            "complete",
        ])
    );
}

#[test]
fn request_line_round_trips() {
    let text = "PURGE /x?y=1 HTTP/1.1\r\n";
    let line = parse_request_line(text).unwrap();
    assert_eq!(*line.method(), Method::Purge);
    assert_eq!(line.path(), "/x");
    assert_eq!(line.query(), Some("y=1"));
    assert_eq!(line.version(), (1, 1));
    assert_eq!(line.to_line(), text);
}

#[test]
fn unknown_method_round_trips_as_other() {
    let text = "BREW /pot HTTP/2.0\r\n";
    let line = parse_request_line(text).unwrap();
    assert_eq!(*line.method(), Method::Other("BREW".to_string()));
    assert_eq!(line.query(), None);
    assert_eq!(line.version(), (2, 0));
    assert_eq!(line.to_line(), text);
}

#[test]
fn every_known_method_is_recognised() {
    let cases = [
        ("GET", Method::Get),
        ("PUT", Method::Put),
        ("POST", Method::Post),
        ("DELETE", Method::Delete),
        ("HEAD", Method::Head),
        ("CONNECT", Method::Connect),
        ("OPTIONS", Method::Options),
        ("TRACE", Method::Trace),
        ("PATCH", Method::Patch),
        ("PURGE", Method::Purge),
    ];
    for (token, method) in cases {
        assert_eq!(Method::from_token(token), method);
        assert_eq!(method.as_str(), token);
    }
    assert_eq!(Method::from_token("get"), Method::Other("get".to_string()));
}

#[test]
fn request_line_grammar_edges() {
    for bad in [
        "GET / HTTP/1.1\n",
        "GET noslash HTTP/1.1\r\n",
        "GET / HTTP/x.1\r\n",
        " / HTTP/1.1\r\n",
        "GET HTTP/1.1\r\n",
        "GET ?q HTTP/1.1\r\n",
        "G3T / HTTP/1.1\r\n",
        "",
    ] {
        assert_eq!(
            parse_request_line(bad).err(),
            Some(ParseError::MalformedRequestLine),
            "{:?}",
            bad
        );
    }
    let spaced = parse_request_line("GET /a b HTTP/1.0\r\n").unwrap();
    assert_eq!(spaced.path(), "/a b");
    let q = parse_request_line("GET /a?b?c HTTP/1.1\r\n").unwrap();
    assert_eq!(q.path(), "/a");
    assert_eq!(q.query(), Some("b?c"));
}

#[test]
fn header_line_is_split_and_trimmed() {
    let mut h = Headers::new();
    assert_eq!(h.parse(" Accept :  text/html ,text/plain,  "), Ok(()));
    assert_eq!(
        h.all(),
        vec![("Accept".to_string(), strings(&["text/html", "text/plain", ""]))]
    );
    assert_eq!(h.get("accept"), Some("text/html".to_string()));
    assert!(h.has("ACCEPT"));
    assert!(!h.has("Host"));
    assert_eq!(h.get("Host"), None);
}

#[test]
fn header_value_keeps_later_separators() {
    let mut h = Headers::new();
    assert_eq!(h.parse("Link: a: b"), Ok(()));
    assert_eq!(h.get("Link"), Some("a: b".to_string()));
}

#[test]
fn header_without_separator_is_refused() {
    let mut h = Headers::new();
    h.insert("A", "1");
    assert_eq!(h.parse("A:1"), Err(HeaderError::MissingSeparator));
    assert_eq!(h.all(), vec![("A".to_string(), strings(&["1"]))]);
}

#[test]
fn insert_appends_under_existing_name() {
    let mut h = Headers::new();
    h.insert("Set-Cookie", "a=1");
    h.insert("X", "y");
    h.insert("set-cookie", "b=2");
    assert_eq!(
        h.all(),
        vec![
            ("Set-Cookie".to_string(), strings(&["a=1", "b=2"])),
            ("X".to_string(), strings(&["y"])),
        ]
    );
    assert_eq!(h.serialize(), "Set-Cookie: a=1, b=2\r\nX: y\r\n");
}

#[test]
fn header_block_survives_serialize_and_parse() {
    let mut h = Headers::new();
    for line in ["Accept: text/html, text/plain", "X-A: 1", "accept: */*"] {
        h.parse(line).unwrap();
    }
    let text = h.serialize();
    assert_eq!(text, "Accept: text/html, text/plain, */*\r\nX-A: 1\r\n");
    let mut again = Headers::new();
    for line in text.split("\r\n").filter(|l| !l.is_empty()) {
        again.parse(line).unwrap();
    }
    assert_eq!(again.all(), h.all());
}

#[test]
fn empty_headers_serialize_to_nothing() {
    assert_eq!(Headers::new().serialize(), "");
    assert_eq!(Headers::new().all(), vec![]);
}

#[test]
fn query_is_read_in_order() {
    let q = Query::from_str("b=2&a=1&b=3").unwrap();
    assert_eq!(q.get("b"), Some(strings(&["2", "3"])));
    assert_eq!(q.get("a"), Some(strings(&["1"])));
    assert_eq!(q.get("c"), None);
    assert_eq!(q.serialize(), "b=2&b=3&a=1");
}

#[test]
fn query_value_keeps_later_equals() {
    let q = Query::from_str("a=b=c&e=").unwrap();
    assert_eq!(q.get("a"), Some(strings(&["b=c"])));
    assert_eq!(q.get("e"), Some(strings(&[""])));
}

#[test]
fn blank_query_is_empty() {
    assert_eq!(Query::from_str("").unwrap().serialize(), "");
    assert_eq!(Query::from_str("  ").unwrap().get(""), None);
    assert_eq!(Query::new().serialize(), "");
}

#[test]
fn query_piece_without_equals_is_refused() {
    assert_eq!(Query::from_str("a=1&b").err(), Some(QueryError::MissingEquals));
    assert_eq!(Query::from_str("a=1&").err(), Some(QueryError::MissingEquals));
}

#[test]
fn query_round_trips_through_its_text() {
    let q = Query::from_str("x=1&x=2&y=3").unwrap();
    let text = q.serialize();
    assert_eq!(text, "x=1&x=2&y=3");
    assert_eq!(Query::from_str(&text).unwrap().get("x"), Some(strings(&["1", "2"])));
}

#[test]
fn query_param_is_written_once_per_value() {
    assert_eq!(format_query_param("k", &strings(&["1", "2"])), "k=1&k=2");
    assert_eq!(format_query_param("k", &strings(&["v"])), "k=v");
    assert_eq!(format_query_param("k", &vec![]), "");
}

#[test]
fn response_defaults() {
    let res = Response::new();
    assert_eq!(res.http_version(), "1.0");
    assert_eq!(res.http_version_text(), "HTTP/1.0");
    assert_eq!(res.status(), (200, "OK"));
    assert!(!res.headers_written());
}

#[test]
fn start_writes_status_line_and_headers() {
    let mut res = Response::new();
    res.with_http_version("1.1").unwrap();
    res.with_status(201, "Created").unwrap();
    res.with_header("A", "1").unwrap();
    res.with_header("A", "2").unwrap();
    res.with_header("B", "x").unwrap();
    assert_eq!(res.start(), Ok(()));
    assert_eq!(res.write(b"body"), Ok(4));
    assert_eq!(
        res.flush().unwrap(),
        b"HTTP/1.1 201 Created\r\nA: 1, 2\r\nB: x\r\n\r\nbody".to_vec()
    );
    assert_eq!(res.flush().unwrap(), Vec::<u8>::new());
}

#[test]
fn start_twice_fails_without_writing() {
    let mut res = Response::new();
    assert_eq!(res.start(), Ok(()));
    assert_eq!(res.start(), Err(ResponseError::AlreadyStarted));
    assert_eq!(res.flush().unwrap(), b"HTTP/1.0 200 OK\r\n\r\n".to_vec());
}

#[test]
fn write_before_start_fails() {
    let mut res = Response::new();
    assert_eq!(res.write(b"early"), Err(ResponseError::NotStarted));
    assert_eq!(res.flush(), Err(ResponseError::NotStarted));
    assert_eq!(res.start(), Ok(()));
    assert_eq!(res.flush().unwrap(), b"HTTP/1.0 200 OK\r\n\r\n".to_vec());
}

#[test]
fn head_changes_after_start_fail() {
    let mut res = Response::new();
    res.start().unwrap();
    assert_eq!(res.with_status(500, "x"), Err(ResponseError::HeadersAlreadyWritten));
    assert_eq!(res.with_header("A", "1"), Err(ResponseError::HeadersAlreadyWritten));
    assert_eq!(res.with_http_version("1.1"), Err(ResponseError::HeadersAlreadyWritten));
    assert_eq!(res.status(), (200, "OK"));
    assert_eq!(res.http_version(), "1.0");
}

#[test]
fn negative_status_is_written_with_sign() {
    let mut res = Response::new();
    res.with_status(-7, "Odd").unwrap();
    res.start().unwrap();
    assert_eq!(res.flush().unwrap(), b"HTTP/1.0 -7 Odd\r\n\r\n".to_vec());
}

#[test]
fn not_found_response() {
    let mut res = Response::new();
    assert_eq!(send_not_found(&mut res), Ok(()));
    assert_eq!(
        res.flush().unwrap(),
        b"HTTP/1.0 404 Not Found\r\n\r\n404 - Not Found".to_vec()
    );
    assert_eq!(send_not_found(&mut res), Err(ResponseError::HeadersAlreadyWritten));
}

#[test]
fn error_response() {
    assert_eq!(error_body(500, "Internal Server Error"), "500 - Internal Server Error");
    let mut res = Response::new();
    assert_eq!(send_error(&mut res, 500, "Internal Server Error"), Ok(()));
    assert_eq!(
        res.flush().unwrap(),
        b"HTTP/1.0 500 Internal Server Error\r\n\r\n500 - Internal Server Error".to_vec()
    );
}

#[test]
fn content_type_comes_from_extension() {
    assert_eq!(content_type_for("/site/style.css"), "text/css");
    assert_eq!(content_type_for("/site/index.html"), "text/html");
    assert_eq!(content_type_for("/dir.css/README"), "text/plain");
    assert_eq!(content_type_for("/home/.bashrc"), "text/plain");
    assert_eq!(content_type_for("/x/file.unknownext"), "text/plain");
    assert_eq!(content_type_for("/a/b.tar.css"), "text/css");
}

#[test]
fn file_response_head() {
    let mut res = Response::new();
    assert_eq!(start_file(&mut res, "/srv/page.html", 1234), Ok(()));
    assert_eq!(res.write(b"<p>"), Ok(3));
    assert_eq!(
        res.flush().unwrap(),
        b"HTTP/1.0 200 OK\r\nConnection: close\r\nContent-Type: text/html\r\nContent-Length: 1234\r\n\r\n<p>".to_vec()
    );
}

#[test]
fn directory_listing_page() {
    let entries = vec![
        ("a.txt".to_string(), false),
        ("".to_string(), false),
        ("sub".to_string(), true),
    ];
    assert_eq!(
        directory_page("/docs", &entries),
        "<html><body><ul><li><a href=\"/docs/a.txt\">a.txt</a></li><li><a href=\"/docs/sub/\">sub/</a></li></ul></body></html>"
    );
    assert_eq!(
        directory_page("/", &vec![("f".to_string(), false)]),
        "<html><body><ul><li><a href=\"f\">f</a></li></ul></body></html>"
    );
    assert_eq!(
        directory_page("/d/", &vec![]),
        "<html><body><ul></ul></body></html>"
    );
}

#[test]
fn directory_listing_response() {
    let mut res = Response::new();
    assert_eq!(send_listing(&mut res, "/", &vec![("f".to_string(), false)]), Ok(()));
    let out = String::from_utf8(res.flush().unwrap()).unwrap();
    assert_eq!(
        out,
        "HTTP/1.0 200 OK\r\nContent-Type: text/html; charset=utf-8\r\n\r\n<html><body><ul><li><a href=\"f\">f</a></li></ul></body></html>"
    );
}

#[test]
fn unsigned_decimal_parsing() {
    assert_eq!(parse_u64("0"), Some(0));
    assert_eq!(parse_u64("42"), Some(42));
    assert_eq!(parse_u64("18446744073709551615"), Some(u64::MAX));
    assert_eq!(parse_u64("18446744073709551616"), None);
    assert_eq!(parse_u64(""), None);
    assert_eq!(parse_u64("+1"), None);
    assert_eq!(parse_u64("4 2"), None);
}

#[test]
fn accept_errors_and_config() {
    assert_eq!(after_accept_error(AcceptError::ConnectionReset), AcceptAction::Continue);
    assert_eq!(after_accept_error(AcceptError::Interrupted), AcceptAction::Continue);
    assert_eq!(after_accept_error(AcceptError::Other), AcceptAction::Stop);
    assert_eq!(ServerConfig::new("127.0.0.1:9000", 0).err(), Some(ConfigError::NoWorkers));
    let c = ServerConfig::new("127.0.0.1:9000", 4).unwrap();
    assert_eq!(c.addr(), "127.0.0.1:9000");
    assert_eq!(c.workers(), 4);
}

#[test]
fn finish_sends_an_unstarted_response_as_is() {
    let mut res = Response::new();
    res.with_status(204, "No Content").unwrap();
    assert_eq!(res.finish(), b"HTTP/1.0 204 No Content\r\n\r\n".to_vec());
    assert!(res.headers_written());
    assert_eq!(res.finish(), Vec::<u8>::new());
    let mut started = Response::new();
    started.start().unwrap();
    started.write(b"x").unwrap();
    assert_eq!(started.finish(), b"HTTP/1.0 200 OK\r\n\r\nx".to_vec());
}

#[test]
fn query_with_repeated_keys_reads_back() {
    let q = Query::from_str("a=1&b=2&a=3").unwrap();
    let again = Query::from_str(&q.serialize()).unwrap();
    assert_eq!(again.get("a"), Some(strings(&["1", "3"])));
    assert_eq!(again.get("b"), Some(strings(&["2"])));
    assert_eq!(again.serialize(), q.serialize());
}

#[test]
fn path_components_skip_empty_and_dot() {
    let req = parse_all(&["GET //a/./b/ HTTP/1.1\r\n", "\r\n"]).unwrap().unwrap();
    assert_eq!(req.path_components(), Some(strings(&["a", "b"])));
    let root = parse_all(&["GET / HTTP/1.1\r\n", "\r\n"]).unwrap().unwrap();
    assert_eq!(root.path_components(), Some(vec![]));
    let dots = parse_all(&["GET /a/.../b HTTP/1.1\r\n", "\r\n"]).unwrap().unwrap();
    assert_eq!(dots.path_components(), Some(strings(&["a", "...", "b"])));
}

#[test]
fn path_components_refuse_parent_segments() {
    let req = parse_all(&["GET /a/../../etc/passwd HTTP/1.1\r\n", "\r\n"]).unwrap().unwrap();
    assert_eq!(req.path_components(), None);
    let encoded = parse_all(&["GET /%2e%2e/x HTTP/1.1\r\n", "\r\n"]).unwrap().unwrap();
    assert_eq!(encoded.path(), "/../x");
    assert_eq!(encoded.path_components(), None);
}

#[test]
fn reply_depends_on_lookup_and_mode() {
    assert_eq!(reply_for(Lookup::Missing, true), Reply::NotFound);
    assert_eq!(reply_for(Lookup::Failed, false), Reply::ServerError);
    assert_eq!(reply_for(Lookup::File, false), Reply::SendFile);
    assert_eq!(reply_for(Lookup::Directory, false), Reply::NotFound);
    assert_eq!(reply_for(Lookup::Directory, true), Reply::ListDirectory);
}

fn record(lines: &[&str], close: bool) -> (Result<Progress, ParseError>, Vec<String>) {
    let mut parser = Parser::request(Recorder::default());
    let mut last = Ok(Progress::NeedMore);
    for line in lines {
        last = parser.feed_line(line);
        if last != Ok(Progress::NeedMore) {
            break;
        }
    }
    if close && last == Ok(Progress::NeedMore) {
        last = parser.end_of_input();
    }
    (last, parser.finish().1.events)
}

#[test]
fn unknown_method_is_reported_once() {
    let (r, events) = record(&["BREW /pot HTTP/1.1\r\n", "\r\n"], false);
    assert_eq!(r, Ok(Progress::Complete));
    assert_eq!(
        events,
        strings(&["begin", "method BREW", "url /pot", "version 1.1", "complete"])
    );
}

#[test]
fn events_of_a_query_request() {
    let (r, events) = record(&["GET /a/b?x=1&x=2 HTTP/1.1\r\n", "\r\n"], false);
    assert_eq!(r, Ok(Progress::Complete));
    assert_eq!(
        events,
        strings(&["begin", "method GET", "url /a/b", "query x=1&x=2", "version 1.1", "complete"])
    );
}

#[test]
fn no_query_event_without_mark() {
    let (_, events) = record(&["POST /submit HTTP/1.0\r\n", "\r\n"], false);
    assert_eq!(
        events,
        strings(&["begin", "method POST", "url /submit", "version 1.0", "complete"])
    );
}

#[test]
fn no_event_on_immediate_close() {
    let (r, events) = record(&[], true);
    assert_eq!(r, Ok(Progress::NoRequest));
    assert!(events.is_empty());
}

#[test]
fn no_event_for_malformed_request_lines() {
    for bad in ["get /a HTTP/1.1\r\n", " /a HTTP/1.1\r\n", "GET /a HTTP/11\r\n"] {
        let (r, events) = record(&[bad, "\r\n"], false);
        assert_eq!(r, Err(ParseError::MalformedRequestLine));
        assert!(events.is_empty(), "{:?}", bad);
    }
    let (r, events) = record(&["GET /p?novalue HTTP/1.1\r\n"], false);
    assert_eq!(r, Err(ParseError::MalformedQuery));
    assert!(events.is_empty());
}

#[test]
fn header_events_in_order_stop_at_blank_line() {
    let (r, events) = record(
        &["GET / HTTP/1.1\r\n", "A: 1, 2\r\n", "B: x\r\n", "\r\n", "C: body\r\n"],
        false,
    );
    assert_eq!(r, Ok(Progress::Complete));
    assert_eq!(
        events,
        strings(&["begin", "method GET", "url /", "version 1.1", "header A: 1, 2", "header B: x", "complete"])
    );
    let (r, events) = record(&["GET / HTTP/1.1\r\n", "A: 1\r\n", "broken\r\n"], false);
    assert_eq!(r, Err(ParseError::MalformedHeader));
    assert_eq!(events.last().unwrap(), "header A: 1");
    let (r, events) = record(&["GET / HTTP/1.1\r\n", "Content-Length: x\r\n", "\r\n"], false);
    assert_eq!(r, Err(ParseError::InvalidContentLength));
    assert_eq!(events.last().unwrap(), "header Content-Length: x");
}

#[test]
fn url_and_query_events_are_decoded() {
    let (_, events) = record(&["GET /a%20b?q=c%2Fd HTTP/1.1\r\n", "\r\n"], false);
    assert_eq!(
        events,
        strings(&["begin", "method GET", "url /a b", "query q=c/d", "version 1.1", "complete"])
    );
}
