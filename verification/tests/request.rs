//! Tests of the request pipeline: routing, static files, error pages,
//! templates, and query parsing.

use rwebserve::configuration::{initialize_config, Config, Handlers, Request, Response, Rsrc};
use rwebserve::connection::{config_to_conn, ConnConfig};
use rwebserve::http_parser::HttpRequest;
use rwebserve::request::{load_template, parse_url, process_request};

const NOW: &str = "Thu, 01 Jan 1970 00:00:00 GMT";

/// What the loader hands back for any path.
enum Loader {
    Contents,
    Fails,
    Unbalanced,
}

/// A resource store with a fixed existence answer and loader behaviour.
struct Store {
    valid: bool,
    loader: Loader,
}

impl Rsrc for Store {
    fn load(&mut self, path: &String) -> Result<String, String> {
        match self.loader {
            Loader::Contents => Ok(format!("{} contents", path)),
            Loader::Fails => Err(format!("{} failed to load", path)),
            Loader::Unbalanced => Ok("unbalanced {{curly}} {{braces}".to_string()),
        }
    }

    fn has_path(&mut self, _path: &String) -> bool {
        self.valid
    }

    fn is_dir(&mut self, _path: &String) -> bool {
        false
    }
}

/// The test view: every named route renders `test.html`.
struct TestViews;

impl Handlers for TestViews {
    fn handle(
        &mut self,
        _config: &ConnConfig,
        _name: &String,
        _request: &Request,
        response: Response,
    ) -> Response {
        Response { template: "test.html".to_string(), ..response }
    }
}

fn make_config(routes: Vec<(&str, &str, &str)>) -> Config {
    Config {
        hosts: vec!["localhost".to_string()],
        server_info: "unit test".to_string(),
        resources_root: "server/html".to_string(),
        routes: routes
            .into_iter()
            .map(|(m, t, n)| (m.to_string(), t.to_string(), n.to_string()))
            .collect(),
        views: vec!["foo".to_string()],
        ..initialize_config()
    }
}

fn make_request(url: &str, mime_type: &str) -> HttpRequest {
    // The parser lower-cases header names, so these are lower-cased too.
    let headers = vec![
        ("host".to_string(), "localhost:8080".to_string()),
        ("user-agent".to_string(), "Mozilla/5.0".to_string()),
        ("accept".to_string(), mime_type.to_string()),
        ("accept-Language".to_string(), "en-us,en".to_string()),
        ("accept-encoding".to_string(), "gzip, deflate".to_string()),
        ("connection".to_string(), "keep-alive".to_string()),
    ];
    HttpRequest {
        method: "GET".to_string(),
        major_version: 1,
        minor_version: 1,
        url: url.to_string(),
        headers,
        body: String::new(),
    }
}

fn run(
    config: &Config,
    store: &mut Store,
    request: HttpRequest,
) -> (String, String) {
    let mut iconfig = config_to_conn(config);
    let mut views = TestViews;
    let (header, body, _action) = process_request(
        &mut iconfig,
        store,
        &mut views,
        request,
        "10.11.12.13",
        "1.2.3.4",
        NOW,
    );
    (header, body)
}

#[test]
fn html_route() {
    let config = make_config(vec![("GET", "/foo/bar", "foo")]);
    let mut store = Store { valid: false, loader: Loader::Contents };

    let request = make_request("/foo/bar", "text/html");
    let (_header, body) = run(&config, &mut store, request);

    assert_eq!(body, "server/html/test.html contents");
}

#[test]
fn route_with_bad_type() {
    let config = make_config(vec![("GET", "/foo/bar", "foo")]);
    let mut store = Store { valid: false, loader: Loader::Contents };

    let request = make_request("/foo/bar", "text/zzz");
    let (header, body) = run(&config, &mut store, request);

    assert!(header.contains("404 Not Found"));
    assert!(header.contains("Content-Type: text/html"));
    assert_eq!(body, "server/html/not-found.html contents");
}

#[test]
fn non_html_route() {
    let config = make_config(vec![("GET", "/foo/bar<text/csv>", "foo")]);
    let mut store = Store { valid: false, loader: Loader::Contents };

    let request = make_request("/foo/bar", "text/csv");
    let (_header, body) = run(&config, &mut store, request);

    assert_eq!(body, "server/html/test.html contents");
}

#[test]
fn static_route() {
    let config = make_config(vec![("GET", "/foo/bar", "foo")]);
    let mut store = Store { valid: true, loader: Loader::Contents };

    let request = make_request("/foo/baz.jpg", "text/html,image/jpeg");
    let (header, body) = run(&config, &mut store, request);

    assert!(header.contains("Content-Type: image/jpeg"));
    assert_eq!(body, "server/html/foo/baz.jpg contents");
}

#[test]
fn static_with_bad_type() {
    let config = make_config(vec![("GET", "/foo/bar", "foo")]);
    let mut store = Store { valid: true, loader: Loader::Contents };

    let request = make_request("/foo/baz.jpg", "text/zzz");
    let (header, body) = run(&config, &mut store, request);

    assert!(header.contains("Content-Type: text/html"));
    assert_eq!(body, "server/html/not-found.html contents");
}

#[test]
fn bad_url() {
    let config = make_config(vec![("GET", "/foo/bar", "foo")]);
    let mut store = Store { valid: false, loader: Loader::Contents };

    let request = make_request("/foo/baz.jpg", "text/html,image/jpeg");
    let (header, body) = run(&config, &mut store, request);

    assert!(header.contains("Content-Type: text/html"));
    assert!(header.contains("404 Not Found"));
    assert!(body.contains("server/html/not-found.html content"));
}

#[test]
fn path_outside_root() {
    let config = make_config(vec![("GET", "/foo/bar", "foo")]);
    let mut store = Store { valid: true, loader: Loader::Contents };

    let request = make_request("/foo/../../baz.jpg", "text/html,image/jpeg");
    let (header, body) = run(&config, &mut store, request);

    assert!(header.contains("Content-Type: text/html"));
    assert!(header.contains("403 Forbidden"));
    assert!(body.contains("server/html/not-found.html contents"));
}

#[test]
fn read_error() {
    let config = make_config(vec![("GET", "/foo/baz", "foo")]);
    let mut store = Store { valid: true, loader: Loader::Fails };

    let request = make_request("/foo/baz.jpg", "text/html,image/jpeg");
    let (header, body) = run(&config, &mut store, request);

    assert!(header.contains("Content-Type: text/html"));
    assert!(header.contains("403 Forbidden"));
    assert!(body.contains("Could not read URL /foo/baz.jpg"));
}

#[test]
fn bad_version() {
    let config = make_config(vec![("GET", "/foo/baz", "foo")]);
    let mut store = Store { valid: true, loader: Loader::Contents };

    let request = HttpRequest { major_version: 100, ..make_request("/foo/baz.jpg", "text/html,image/jpeg") };
    let (header, body) = run(&config, &mut store, request);

    assert!(header.contains("Content-Type: text/html"));
    assert!(header.contains("505 HTTP Version Not Supported"));
    assert!(body.contains("server/html/not-found.html contents"));
}

#[test]
fn bad_template() {
    let config = Config {
        settings: vec![("debug".to_string(), "true".to_string())],
        ..make_config(vec![("GET", "/foo/baz", "foo")])
    };
    let mut store = Store { valid: true, loader: Loader::Unbalanced };
    let iconfig = config_to_conn(&config);

    match load_template(&iconfig, &mut store, &"blah.html".to_string()) {
        Ok(v) => {
            panic!("Expected error but found: {}", v);
        },
        Err(s) => {
            assert!(s.contains("mismatched curly braces"));
        },
    }
}

#[test]
fn query_strings() {
    let (path, params) = parse_url("/some/url");
    assert_eq!(path, "/some/url");
    assert_eq!(params.size(), 0);

    let (path, params) = parse_url("/some/url?badness");
    assert_eq!(path, "/some/url?badness");
    assert_eq!(params.size(), 0);

    let (path, params) = parse_url("/some?name=value");
    assert_eq!(path, "/some");
    assert_eq!(params.size(), 1);
    assert_eq!(params.get(&"name".to_string()), "value");

    let (path, params) = parse_url("/some?name=value&foo=bar");
    assert_eq!(path, "/some");
    assert_eq!(params.size(), 2);
    assert_eq!(params.get(&"name".to_string()), "value");
    assert_eq!(params.get(&"foo".to_string()), "bar");
}
