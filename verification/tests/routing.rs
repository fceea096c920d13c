//! Behavior of request parsing, routing, and path resolution.

use blob_server::{Action, BlobResource};

fn resource(root: &str) -> BlobResource {
    BlobResource::new(root.as_bytes().to_vec())
}

fn decide(root: &str, head: &str) -> Action {
    resource(root).handle_request(&head.as_bytes().to_vec())
}

fn served_path(root: &str, head: &str) -> Vec<u8> {
    match decide(root, head) {
        Action::ServeFile { path } => path,
        other => panic!("expected a file to be served, got {:?}", kind(&other)),
    }
}

fn kind(a: &Action) -> &'static str {
    match a {
        Action::List => "List",
        Action::ServeFile { .. } => "ServeFile",
        Action::NotFound => "NotFound",
        Action::BadRequest => "BadRequest",
    }
}

#[test]
fn list_route_is_dispatched() {
    assert!(matches!(decide("/data", "GET /list HTTP/1.1\r\nHost: x\r\n\r\n"), Action::List));
}

#[test]
fn file_route_resolves_under_the_base_directory() {
    let p = served_path("/data", "GET /file?name=hello.txt HTTP/1.1\r\n\r\n");
    assert_eq!(p, b"/data/hello.txt".to_vec());
}

#[test]
fn missing_name_parameter_is_a_bad_request() {
    assert!(matches!(
        decide("/data", "GET /file HTTP/1.1\r\n\r\n"),
        Action::BadRequest
    ));
    assert!(matches!(
        decide("/data", "GET /file?other=1 HTTP/1.1\r\n\r\n"),
        Action::BadRequest
    ));
}

#[test]
fn unknown_route_is_not_found() {
    assert!(matches!(decide("/data", "GET /other HTTP/1.1\r\n\r\n"), Action::NotFound));
    assert!(matches!(decide("/data", "GET / HTTP/1.1\r\n\r\n"), Action::NotFound));
}

#[test]
fn non_get_method_is_not_found() {
    assert!(matches!(
        decide("/data", "POST /list HTTP/1.1\r\n\r\n"),
        Action::NotFound
    ));
}

#[test]
fn request_line_without_space_is_malformed() {
    assert!(matches!(decide("/data", "garbage\r\n"), Action::BadRequest));
    assert!(matches!(decide("/data", ""), Action::BadRequest));
}

#[test]
fn parent_segments_resolve_outside_the_base_directory() {
    // Path confinement is a non-goal: `..` survives verbatim.
    let p = served_path("/data", "GET /file?name=../secret HTTP/1.1\r\n\r\n");
    assert_eq!(p, b"/data/../secret".to_vec());
}

#[test]
fn absolute_name_replaces_the_base_directory() {
    let p = served_path("/data", "GET /file?name=/etc/hosts HTTP/1.1\r\n\r\n");
    assert_eq!(p, b"/etc/hosts".to_vec());
}

#[test]
fn base_with_trailing_slash_gets_no_second_separator() {
    let p = served_path("/data/", "GET /file?name=f HTTP/1.1\r\n\r\n");
    assert_eq!(p, b"/data/f".to_vec());
}

#[test]
fn empty_base_uses_the_name_alone() {
    let p = served_path("", "GET /file?name=f HTTP/1.1\r\n\r\n");
    assert_eq!(p, b"f".to_vec());
}

#[test]
fn percent_and_plus_escapes_are_decoded() {
    let p = served_path("/data", "GET /file?name=a%2Fb+c.txt HTTP/1.1\r\n\r\n");
    assert_eq!(p, b"/data/a/b c.txt".to_vec());
    let q = served_path("/data", "GET /file?name=a%2fb%41 HTTP/1.1\r\n\r\n");
    assert_eq!(q, b"/data/a/bA".to_vec());
}

#[test]
fn stray_percent_stands_for_itself() {
    let p = served_path("/data", "GET /file?name=100%25done%2 HTTP/1.1\r\n\r\n");
    assert_eq!(p, b"/data/100%done%2".to_vec());
}

#[test]
fn name_is_found_among_other_parameters() {
    let p = served_path("/data", "GET /file?x=1&name=f.bin&y=2 HTTP/1.1\r\n\r\n");
    assert_eq!(p, b"/data/f.bin".to_vec());
}

#[test]
fn encoded_name_key_is_recognized() {
    let p = served_path("/data", "GET /file?na%6De=f HTTP/1.1\r\n\r\n");
    assert_eq!(p, b"/data/f".to_vec());
}

#[test]
fn name_without_value_resolves_to_the_base_with_separator() {
    let p = served_path("/data", "GET /file?name HTTP/1.1\r\n\r\n");
    assert_eq!(p, b"/data/".to_vec());
    let q = served_path("/data", "GET /file?name= HTTP/1.1\r\n\r\n");
    assert_eq!(q, b"/data/".to_vec());
}

#[test]
fn query_on_list_route_is_ignored() {
    assert!(matches!(
        decide("/data", "GET /list?name=x HTTP/1.1\r\n\r\n"),
        Action::List
    ));
}

#[test]
fn line_feed_alone_ends_the_request_line() {
    assert!(matches!(decide("/data", "GET /list HTTP/1.1\nHost: x\n"), Action::List));
}

#[test]
fn empty_query_segments_are_skipped() {
    let p = served_path("/data", "GET /file?&&name=f HTTP/1.1\r\n\r\n");
    assert_eq!(p, b"/data/f".to_vec());
}

#[test]
fn question_mark_in_the_value_belongs_to_the_query() {
    let p = served_path("/data", "GET /file?name=f?x HTTP/1.1\r\n\r\n");
    assert_eq!(p, b"/data/f?x".to_vec());
}

#[test]
fn request_without_http_version_still_routes() {
    assert!(matches!(decide("/data", "GET /list\r\n"), Action::List));
    let p = served_path("/data", "GET /file?name=f\r\n");
    assert_eq!(p, b"/data/f".to_vec());
}
