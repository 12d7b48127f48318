//! Tests of configuration validation.

use rwebserve::configuration::{initialize_config, Config, Rsrc};
use rwebserve::connection::validate_config;

/// A resource store whose root holds the four required pages.
struct FullStore;

impl Rsrc for FullStore {
    fn load(&mut self, path: &String) -> Result<String, String> {
        Ok(format!("{} contents", path))
    }

    fn has_path(&mut self, _path: &String) -> bool {
        true
    }

    fn is_dir(&mut self, _path: &String) -> bool {
        true
    }
}

/// A resource store with nothing in it but the root directory.
struct EmptyStore;

impl Rsrc for EmptyStore {
    fn load(&mut self, path: &String) -> Result<String, String> {
        Err(format!("{} failed to load", path))
    }

    fn has_path(&mut self, _path: &String) -> bool {
        false
    }

    fn is_dir(&mut self, _path: &String) -> bool {
        true
    }
}

fn base_config() -> Config {
    Config {
        hosts: vec!["localhost".to_string()],
        server_info: "unit test".to_string(),
        resources_root: "server/html".to_string(),
        ..initialize_config()
    }
}

#[test]
fn routes_must_have_views() {
    let config = Config {
        routes: vec![
            ("GET".to_string(), "/".to_string(), "home".to_string()),
            ("GET".to_string(), "/hello".to_string(), "greeting".to_string()),
            ("GET".to_string(), "/goodbye".to_string(), "farewell".to_string()),
        ],
        views: vec!["home".to_string()],
        ..base_config()
    };

    let mut store = FullStore;
    assert_eq!(
        validate_config(&config, &mut store),
        "No views for the following routes: farewell, greeting"
    );
}

#[test]
fn views_must_have_routes() {
    let config = Config {
        routes: vec![("GET".to_string(), "/".to_string(), "home".to_string())],
        views: vec!["home".to_string(), "greeting".to_string(), "goodbye".to_string()],
        ..base_config()
    };

    let mut store = FullStore;
    assert_eq!(
        validate_config(&config, &mut store),
        "No routes for the following views: goodbye, greeting"
    );
}

#[test]
fn root_must_have_required_files() {
    let config = Config {
        routes: vec![("GET".to_string(), "/".to_string(), "home".to_string())],
        views: vec!["home".to_string()],
        resources_root: "/tmp".to_string(),
        ..base_config()
    };

    let mut store = EmptyStore;
    assert_eq!(
        validate_config(&config, &mut store),
        "Missing required files: forbidden.html, home.html, not-found.html, not-supported.html"
    );
}
