//! Tests of the request parser.

use rwebserve::http_parser::parse_request;

fn header<'a>(headers: &'a [(String, String)], name: &str) -> &'a str {
    for (k, v) in headers.iter() {
        if k == name {
            return v;
        }
    }
    panic!("no header named {}", name);
}

#[test]
fn test_get_method1() {
    match parse_request("GET / HTTP/1.1\r\n\r\n") {
        Ok(value) => {
            assert_eq!(value.method, "GET");
            assert_eq!(value.major_version, 1);
            assert_eq!(value.minor_version, 1);
            assert_eq!(value.url, "/");
            assert_eq!(value.headers.len(), 0);
        },
        Err(mesg) => {
            panic!("{}", mesg);
        },
    }
}

#[test]
fn test_get_method2() {
    match parse_request(
        "GET / HTTP/1.1\r\nHost: localhost:8080\r\nUser-Agent: Mozilla/5.0 (Macintosh; Intel Mac OS X 10.7; rv:11.0) Gecko/20100101 Firefox/11.0\r\nAccept: text/html,application/xhtml+xml,application/xml;q=0.9,*/*;q=0.8\r\nAccept-Language: en-us,en;q=0.5\r\nAccept-Encoding: gzip, deflate\r\nConnection: keep-alive\r\n\r\n",
    ) {
        Ok(value) => {
            assert_eq!(value.method, "GET");
            assert_eq!(value.major_version, 1);
            assert_eq!(value.minor_version, 1);
            assert_eq!(value.url, "/");
            assert_eq!(value.headers.len(), 6);

            assert_eq!(header(&value.headers, "host"), "localhost:8080");
            assert_eq!(
                header(&value.headers, "user-agent"),
                "Mozilla/5.0 (Macintosh; Intel Mac OS X 10.7; rv:11.0) Gecko/20100101 Firefox/11.0"
            );
            assert_eq!(
                header(&value.headers, "accept"),
                "text/html,application/xhtml+xml,application/xml;q=0.9,*/*;q=0.8"
            );
            assert_eq!(header(&value.headers, "accept-language"), "en-us,en;q=0.5");
            assert_eq!(header(&value.headers, "accept-encoding"), "gzip, deflate");
            assert_eq!(header(&value.headers, "connection"), "keep-alive");
        },
        Err(mesg) => {
            panic!("{}", mesg);
        },
    }
}

#[test]
fn test_unknown_method() {
    match parse_request("GET / HXTP/1.1\r\n\r\n") {
        Ok(value) => {
            panic!("Somehow parsed {}", value.method);
        },
        Err(mesg) => {
            assert_eq!(mesg, "Expected 'HTTP/' on line 1 col 8");
        },
    }
}

#[test]
fn test_header_values() {
    match parse_request(
        "GET / HTTP/1.1\r\nHost:   \t xxx\r\nBlah:   \t bbb \t\r\nMulti: line1\r\n  \tline2\r\n  line3\r\n\r\n",
    ) {
        Ok(value) => {
            assert_eq!(header(&value.headers, "host"), "xxx");
            assert_eq!(header(&value.headers, "blah"), "bbb");
            assert_eq!(header(&value.headers, "multi"), "line1 line2 line3");
        },
        Err(mesg) => {
            panic!("{}", mesg);
        },
    }
}

#[test]
fn test_extension_method() {
    match parse_request("Explode \t / HTTP/1.1\r\nHost: xxx\r\n\r\nsome text\nand more text") {
        Ok(value) => {
            assert_eq!(value.method, "Explode");
        },
        Err(mesg) => {
            panic!("{}", mesg);
        },
    }
}

#[test]
fn test_encoded_url() {
    match parse_request("GET /path%20with%20spaces HTTP/1.1\r\n\r\n") {
        Ok(value) => {
            assert_eq!(value.url, "/path with spaces");
        },
        Err(mesg) => {
            panic!("{}", mesg);
        },
    }
}

#[test]
fn test_encoded_url2() {
    match parse_request("GET /path%2099with%20digits HTTP/1.1\r\n\r\n") {
        Ok(value) => {
            assert_eq!(value.url, "/path 99with digits");
        },
        Err(mesg) => {
            panic!("{}", mesg);
        },
    }
}

#[test]
fn bad_version_digits() {
    match parse_request("GET / HTTP/a.1\r\n\r\n") {
        Ok(_) => panic!("parsed a request without a version"),
        Err(mesg) => {
            assert_eq!(mesg, "Expected decimal number on line 1 col 12");
        },
    }
}
