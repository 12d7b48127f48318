//! Tests of URI-template compilation and matching.

use rwebserve::imap::IMap;
use rwebserve::uri_template::{compile, match_template, Component};

fn get(m: &IMap, k: &str) -> String {
    m.get(&k.to_string()).clone()
}

#[test]
fn compile_literal() {
    let template = "/foo/bar/baz";
    let components = compile(template);

    assert!(components[0] == Component::Literal("foo".to_string()));
    assert!(components[1] == Component::Literal("bar".to_string()));
    assert!(components[2] == Component::Literal("baz".to_string()));
    assert_eq!(components.len(), 3);
}

#[test]
fn compile_variable() {
    let template = "/foo/{ba}r/ba{z}";
    let components = compile(template);

    assert!(components[0] == Component::Literal("foo".to_string()));
    assert!(components[1] == Component::Literal("{ba}r".to_string()));
    assert!(components[2] == Component::Literal("ba{z}".to_string()));
    assert_eq!(components.len(), 3);
}

#[test]
fn compile_non_variable() {
    let template = "/foo/{bar}/{baz}";
    let components = compile(template);

    assert!(components[0] == Component::Literal("foo".to_string()));
    assert!(components[1] == Component::Variable("bar".to_string()));
    assert!(components[2] == Component::Variable("baz".to_string()));
    assert_eq!(components.len(), 3);
}

#[test]
fn compile_path() {
    let template = "/foo/*path";
    let components = compile(template);

    assert!(components[0] == Component::Literal("foo".to_string()));
    assert!(components[1] == Component::Trailer("path".to_string()));
    assert_eq!(components.len(), 2);
}

#[test]
fn compile_non_path() {
    let template = "/foo/*lame/url";
    let components = compile(template);

    assert!(components[0] == Component::Literal("foo".to_string()));
    assert!(components[1] == Component::Literal("*lame".to_string()));
    assert!(components[2] == Component::Literal("url".to_string()));
    assert_eq!(components.len(), 3);
}

#[test]
fn match_root() {
    let path = "/";
    let template = "/";
    let components = compile(template);
    let m = match_template(path, &components);
    assert_eq!(get(&m, "fullpath"), "/");
    assert_eq!(m.size(), 1);

    let path = "/foo";
    let m = match_template(path, &components);
    assert_eq!(m.size(), 0);
}

#[test]
fn match_literals() {
    let path = "/foo/bar/baz";
    let template = "/foo/bar/baz";
    let components = compile(template);
    let m = match_template(path, &components);

    assert_eq!(get(&m, "fullpath"), "/foo/bar/baz");
    assert_eq!(m.size(), 1);
}

#[test]
fn match_non_literals() {
    let path = "/foo/bar/baz";
    let template = "/foo/bar/baz/flob";
    let components = compile(template);
    let m = match_template(path, &components);
    assert_eq!(m.size(), 0);

    let path = "/foo/bar/baz";
    let template = "/foo";
    let components = compile(template);
    let m = match_template(path, &components);
    assert_eq!(m.size(), 0);
}

#[test]
fn match_variables() {
    let path = "/foo/alpha/beta";
    let template = "/foo/{bar}/{baz}";
    let components = compile(template);
    let m = match_template(path, &components);

    assert_eq!(get(&m, "fullpath"), "/foo/alpha/beta");
    assert_eq!(get(&m, "bar"), "alpha");
    assert_eq!(get(&m, "baz"), "beta");
    assert_eq!(m.size(), 3);
}

#[test]
fn match_paths() {
    let path = "/foo/alpha/beta";
    let template = "/foo/*path";
    let components = compile(template);
    let m = match_template(path, &components);

    assert_eq!(get(&m, "fullpath"), "/foo/alpha/beta");
    assert_eq!(get(&m, "path"), "alpha/beta");
    assert_eq!(m.size(), 2);
}

#[test]
fn match_empty_path() {
    // An empty remainder is not useful, so a trailer does not match it.
    let path = "/foo/";
    let template = "/foo/*path";
    let components = compile(template);
    let m = match_template(path, &components);

    assert_eq!(m.size(), 0);
}
