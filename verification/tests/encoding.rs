//! Behavior of the JSON encoding and the startup configuration.

use blob_server::config::{banner, resolve_config, ConfigError};
use blob_server::json::{render_list, u64_to_dec};
use blob_server::response::{error_header, ok_file_header, ok_json_header};
use blob_server::BlobDesc;

#[test]
fn decimal_rendering_is_exact() {
    assert_eq!(u64_to_dec(0), "0");
    assert_eq!(u64_to_dec(7), "7");
    assert_eq!(u64_to_dec(10), "10");
    assert_eq!(u64_to_dec(1234567890), "1234567890");
    assert_eq!(u64_to_dec(u64::MAX), "18446744073709551615");
}

#[test]
fn names_are_escaped_in_json() {
    let blobs = vec![BlobDesc { name: "a\"b\\c\nd".to_string(), size: 1 }];
    assert_eq!(render_list(&blobs), "[{\"name\":\"a\\\"b\\\\c\\nd\",\"size\":1}]");
}

#[test]
fn control_characters_get_unicode_escapes() {
    let blobs = vec![BlobDesc { name: "x\u{1}\u{1f}\t".to_string(), size: 2 }];
    assert_eq!(
        render_list(&blobs),
        "[{\"name\":\"x\\u0001\\u001f\\t\",\"size\":2}]"
    );
}

#[test]
fn plain_unicode_passes_through() {
    let blobs = vec![BlobDesc { name: "héllo".to_string(), size: 5 }];
    assert_eq!(render_list(&blobs), "[{\"name\":\"héllo\",\"size\":5}]");
}

#[test]
fn members_are_comma_separated() {
    let blobs = vec![
        BlobDesc { name: "a".to_string(), size: 1 },
        BlobDesc { name: "b".to_string(), size: 2 },
    ];
    assert_eq!(
        render_list(&blobs),
        "[{\"name\":\"a\",\"size\":1},{\"name\":\"b\",\"size\":2}]"
    );
}

#[test]
fn missing_path_is_a_fatal_configuration_error() {
    let r = resolve_config(None, Some("0.0.0.0:80".to_string()));
    assert!(matches!(r, Err(ConfigError::MissingPath)));
}

#[test]
fn listen_defaults_when_absent() {
    let c = resolve_config(Some("/srv".to_string()), None).unwrap();
    assert_eq!(c.path, "/srv");
    assert_eq!(c.listen, "127.0.0.1:8888");
}

#[test]
fn explicit_listen_is_kept() {
    let c = resolve_config(Some("/srv".to_string()), Some("0.0.0.0:80".to_string())).unwrap();
    assert_eq!(c.listen, "0.0.0.0:80");
}

#[test]
fn listing_response_head_is_exact() {
    assert_eq!(
        ok_json_header(2),
        "HTTP/1.1 200 OK\r\nContent-Type: application/json\r\nContent-Length: 2\r\n\r\n"
    );
}

#[test]
fn file_response_head_is_exact() {
    assert_eq!(
        ok_file_header(1048576),
        "HTTP/1.1 200 OK\r\nContent-Length: 1048576\r\n\r\n"
    );
}

#[test]
fn failure_response_head_is_exact() {
    assert_eq!(
        error_header(404, "Not Found"),
        "HTTP/1.1 404 Not Found\r\nContent-Length: 0\r\n\r\n"
    );
}

#[test]
fn banner_names_address_and_path() {
    assert_eq!(
        banner("127.0.0.1:8888", "/srv/files"),
        "Listening on http://127.0.0.1:8888, serving /srv/files"
    );
}
