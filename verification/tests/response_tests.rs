//! The response configuration and the CORS headers it asks for.

use humus_terra::response::ResponseConfig;
use humus_terra::route::path_segments;

#[test]
fn new_config_sets_no_header() {
    let cfg = ResponseConfig::new();
    assert!(cfg.cors_headers().is_empty());
}

#[test]
fn set_options_become_headers_in_order() {
    let mut cfg = ResponseConfig::new();
    cfg.access_control_allow_origin = Some("https://example.test".to_owned());
    cfg.access_control_allow_headers = Some("content-type".to_owned());
    let headers = cfg.cors_headers();
    assert_eq!(headers.len(), 2);
    assert_eq!(headers[0].0, "access-control-allow-origin");
    assert_eq!(headers[0].1, "https://example.test");
    assert_eq!(headers[1].0, "access-control-allow-headers");
    assert_eq!(headers[1].1, "content-type");
}

#[test]
fn all_options_become_three_headers() {
    let mut cfg = ResponseConfig::new();
    cfg.access_control_allow_origin = Some("*".to_owned());
    cfg.access_control_allow_methods = Some("GET, POST".to_owned());
    cfg.access_control_allow_headers = Some("content-type".to_owned());
    let headers = cfg.cors_headers();
    assert_eq!(headers.len(), 3);
    assert_eq!(headers[1].0, "access-control-allow-methods");
    assert_eq!(headers[1].1, "GET, POST");
}

#[test]
fn root_path_has_no_segment() {
    assert!(path_segments("/").is_empty());
    assert!(path_segments("").is_empty());
}

#[test]
fn trailing_slash_is_ignored() {
    assert_eq!(path_segments("/a/"), vec!["a".to_owned()]);
}

#[test]
fn nested_path_splits_in_order() {
    assert_eq!(path_segments("/a/b"), vec!["a".to_owned(), "b".to_owned()]);
}

#[test]
fn empty_segments_are_dropped() {
    assert_eq!(path_segments("a//b///c"), vec![
        "a".to_owned(),
        "b".to_owned(),
        "c".to_owned(),
    ]);
}
