//! Tests of the event-stream subsystem, response framing, and the
//! smaller helpers.

use rwebserve::configuration::{initialize_config, Body, Config, Handlers, Request, Response, Rsrc};
use rwebserve::connection::{config_to_conn, found_headers, ConnConfig};
use rwebserve::http_parser::HttpRequest;
use rwebserve::imap::IMap;
use rwebserve::request::{make_header_and_body, process_request};
use rwebserve::sse::SseAction;
use rwebserve::text::parse_usize;
use rwebserve::text::str_chars;
use rwebserve::utils::{normalize, truncate_str, url_to_path};

const NOW: &str = "Thu, 01 Jan 1970 00:00:00 GMT";

struct NoStore;

impl Rsrc for NoStore {
    fn load(&mut self, path: &String) -> Result<String, String> {
        Ok(format!("{} contents", path))
    }

    fn has_path(&mut self, _path: &String) -> bool {
        false
    }

    fn is_dir(&mut self, _path: &String) -> bool {
        false
    }
}

struct NoViews;

impl Handlers for NoViews {
    fn handle(
        &mut self,
        _config: &ConnConfig,
        _name: &String,
        _request: &Request,
        response: Response,
    ) -> Response {
        response
    }
}

#[test]
fn event_stream_request_opens_a_producer() {
    let config = Config {
        hosts: vec!["localhost".to_string()],
        server_info: "unit test".to_string(),
        resources_root: "server/html".to_string(),
        sse: vec!["/uptime".to_string()],
        ..initialize_config()
    };
    let mut iconfig = config_to_conn(&config);
    let mut store = NoStore;
    let mut views = NoViews;

    let request = HttpRequest {
        method: "GET".to_string(),
        major_version: 1,
        minor_version: 1,
        url: "/uptime".to_string(),
        headers: vec![("accept".to_string(), "text/event-stream".to_string())],
        body: String::new(),
    };
    let (header, body, action) = process_request(
        &mut iconfig,
        &mut store,
        &mut views,
        request,
        "10.11.12.13",
        "1.2.3.4",
        NOW,
    );

    assert!(header.starts_with("HTTP/1.1 200 OK"));
    assert!(header.contains("Transfer-Encoding: chunked"));
    assert!(header.contains("Cache-Control: no-cache"));
    assert!(header.contains("Content-Type: text/event-stream; charset=utf-8"));
    // The body is a blank flushing event, framed as one chunk.
    assert_eq!(body, "2\r\n\n\n\r\n");
    match action {
        SseAction::Open(path) => assert_eq!(path, "/uptime"),
        _ => panic!("expected the stream to be opened"),
    }
}

#[test]
fn event_stream_request_without_opener_is_not_found() {
    let config = Config {
        hosts: vec!["localhost".to_string()],
        server_info: "unit test".to_string(),
        resources_root: "server/html".to_string(),
        ..initialize_config()
    };
    let mut iconfig = config_to_conn(&config);
    let mut store = NoStore;
    let mut views = NoViews;

    let request = HttpRequest {
        method: "GET".to_string(),
        major_version: 1,
        minor_version: 1,
        url: "/uptime".to_string(),
        headers: vec![("accept".to_string(), "text/event-stream".to_string())],
        body: String::new(),
    };
    let (header, _body, action) = process_request(
        &mut iconfig,
        &mut store,
        &mut views,
        request,
        "10.11.12.13",
        "1.2.3.4",
        NOW,
    );

    assert!(header.starts_with("HTTP/1.1 404 Not Found"));
    assert!(header.contains("Content-Type: text/event-stream\r\n"));
    match action {
        SseAction::NoStream => {},
        _ => panic!("expected no stream"),
    }
}

#[test]
fn framing_adds_the_content_length() {
    let response = Response {
        status: "200 OK".to_string(),
        headers: vec![("Server".to_string(), "unit test".to_string())],
        body: Body::StringBody(String::new()),
        template: String::new(),
        context: Vec::new(),
    };
    let (header, body) = make_header_and_body(&response, "hello");
    assert!(header.starts_with("HTTP/1.1 200 OK\r\n"));
    assert!(header.contains("Content-Length: 5\r\n"));
    assert!(header.ends_with("\r\n\r\n"));
    assert_eq!(body, "hello");
}

#[test]
fn framing_rewrites_a_zero_content_length() {
    let response = Response {
        status: "200 OK".to_string(),
        headers: vec![("Content-Length".to_string(), "0".to_string())],
        body: Body::StringBody(String::new()),
        template: String::new(),
        context: Vec::new(),
    };
    let (header, _body) = make_header_and_body(&response, "some body text");
    assert!(header.contains("Content-Length: 14\r\n"));
}

#[test]
fn framing_chunks_a_chunked_response() {
    let response = Response {
        status: "200 OK".to_string(),
        headers: vec![("Transfer-Encoding".to_string(), "chunked".to_string())],
        body: Body::StringBody(String::new()),
        template: String::new(),
        context: Vec::new(),
    };
    // 26 bytes of body frame as one hexadecimal-sized chunk.
    let (header, body) = make_header_and_body(&response, "abcdefghijklmnopqrstuvwxyz");
    assert!(!header.contains("Content-Length"));
    assert_eq!(body, "1A\r\nabcdefghijklmnopqrstuvwxyz\r\n");
}

#[test]
fn body_text_concatenates_compound_bodies() {
    let body = Body::CompoundBody(vec![
        Box::new(Body::StringBody("one ".to_string())),
        Box::new(Body::CompoundBody(vec![Box::new(Body::StringBody("two".to_string()))])),
    ]);
    assert_eq!(body.to_str(), "one two");
    assert_eq!(Body::BinaryBody(vec![1, 2, 3]).to_str(), "<binary data>");
}

#[test]
fn found_headers_spots_the_blank_line() {
    assert!(!found_headers(&b"GET /\r\n".to_vec()));
    assert!(found_headers(&b"GET / HTTP/1.1\r\n\r\n".to_vec()));
    assert!(!found_headers(&b"\r\n\r".to_vec()));
}

#[test]
fn normalize_resolves_dot_segments() {
    assert_eq!(normalize("server/html/foo/../../baz.jpg"), "server/baz.jpg");
    assert_eq!(normalize("/a/./b/../c"), "/a/c");
    assert_eq!(normalize("../x"), "../x");
}

#[test]
fn url_to_path_strips_the_leading_slash() {
    assert_eq!(url_to_path(&"server/html".to_string(), "/foo/bar"), "server/html/foo/bar");
    assert_eq!(url_to_path(&"server/html".to_string(), "foo"), "server/html/foo");
    assert_eq!(url_to_path(&"server/html".to_string(), "/"), "server/html");
}

#[test]
fn truncate_str_keeps_short_strings() {
    assert_eq!(truncate_str("abc", 10), "abc");
    assert_eq!(truncate_str("abcdefghij", 8), "abcde...");
}

#[test]
fn parse_usize_rejects_junk() {
    assert_eq!(parse_usize(&str_chars("123")), Some(123));
    assert_eq!(parse_usize(&str_chars("")), None);
    assert_eq!(parse_usize(&str_chars("12a")), None);
    assert_eq!(parse_usize(&str_chars("99999999999999999999999999")), None);
}

#[test]
fn multimap_keeps_duplicates_in_order() {
    let mut m = IMap::new();
    m.push("k".to_string(), "a".to_string());
    m.push("k".to_string(), "b".to_string());
    m.push("other".to_string(), "c".to_string());
    assert_eq!(m.size(), 3);
    assert_eq!(m.get(&"k".to_string()), "a");
    assert_eq!(m.get_all(&"k".to_string()), vec!["a".to_string(), "b".to_string()]);
    assert!(m.contains_key(&"other".to_string()));
    assert!(!m.contains_key(&"missing".to_string()));
    assert_eq!(m.find(&"missing".to_string()), None);
}

#[test]
fn percent_decoding_keeps_unmatched_escapes() {
    match rwebserve::http_parser::parse_request("GET /a%zz%4 HTTP/1.1\r\n\r\n") {
        Ok(value) => {
            // An unmatched % stays; a single trailing hex digit decodes alone.
            assert_eq!(value.url, "/a%zz\u{4}");
        },
        Err(mesg) => panic!("{}", mesg),
    }
}

#[test]
fn parser_reports_each_failure_point() {
    // No method token.
    match rwebserve::http_parser::parse_request(" GET / HTTP/1.1\r\n\r\n") {
        Ok(_) => panic!("parsed a request without a method"),
        Err(mesg) => assert_eq!(mesg, "Expected identifier on line 1 col 1"),
    }
    // No target at all.
    match rwebserve::http_parser::parse_request("GET") {
        Ok(_) => panic!("parsed a request without a target"),
        Err(mesg) => assert_eq!(mesg, "Expected url on line 1 col 4"),
    }
    // A version without its dot.
    match rwebserve::http_parser::parse_request("GET / HTTP/11\r\n\r\n") {
        Ok(_) => panic!("parsed a version without a dot"),
        Err(mesg) => assert_eq!(mesg, "Expected '.' on line 1 col 14"),
    }
    // A request line without its line ending.
    match rwebserve::http_parser::parse_request("GET / HTTP/1.1") {
        Ok(_) => panic!("parsed an unterminated request line"),
        Err(mesg) => assert_eq!(mesg, "Expected end of line on line 1 col 15"),
    }
}

#[test]
fn validation_joins_every_error() {
    let config = Config {
        hosts: vec![],
        port: 100,
        server_info: String::new(),
        resources_root: String::new(),
        read_error: String::new(),
        ..initialize_config()
    };
    let mut store = NoStore;
    assert_eq!(
        rwebserve::connection::validate_config(&config, &mut store),
        "Hosts is empty. Port should be 80 or 1024 or above. server_info is empty. \
         resources_root is empty. Missing required files: forbidden.html, home.html, \
         not-found.html, not-supported.html read_error is empty."
    );
}

#[test]
fn later_duplicate_capture_wins() {
    let components = rwebserve::uri_template::compile("/x/{a}/{a}");
    let m = rwebserve::uri_template::match_template("/x/p/q", &components);
    assert_eq!(m.size(), 2);
    assert_eq!(m.get(&"a".to_string()), "q");
    assert_eq!(m.get(&"fullpath".to_string()), "/x/p/q");
}

#[test]
fn accepted_types_are_trimmed() {
    let mut headers = IMap::new();
    headers.push("accept".to_string(), "text/html, image/jpeg".to_string());
    let types = rwebserve::request::accept_types(&headers);
    assert_eq!(types, vec!["text/html".to_string(), "image/jpeg".to_string()]);

    let empty = IMap::new();
    assert_eq!(rwebserve::request::accept_types(&empty), vec!["text/html".to_string()]);
}
