//! Behavior of directory-entry classification and the listing route.

use blob_server::{BlobDesc, BlobResource, ListError, RawEntry};

fn resource(root: &str) -> BlobResource {
    BlobResource::new(root.as_bytes().to_vec())
}

fn file_entry(name: &str, size: u64) -> RawEntry {
    RawEntry {
        ok: true,
        is_file: Some(true),
        name: Some(name.to_string()),
        size: Some(size),
    }
}

#[test]
fn empty_directory_lists_as_empty_array() {
    let r = resource("/data");
    let out = r.list(Some(Vec::new()));
    assert_eq!(out.unwrap(), "[]");
}

#[test]
fn one_file_is_listed_with_name_and_size() {
    let r = resource("/data");
    let out = r.list(Some(vec![file_entry("a.txt", 3)]));
    assert_eq!(out.unwrap(), "[{\"name\":\"a.txt\",\"size\":3}]");
}

#[test]
fn non_regular_entries_are_skipped() {
    // One directory, one entry with unreadable file type, one enumeration
    // error, among two regular files: exactly the two files are listed.
    let r = resource("/data");
    let dir = vec![
        file_entry("a.txt", 3),
        RawEntry { ok: true, is_file: Some(false), name: Some("sub".to_string()), size: Some(7) },
        RawEntry { ok: true, is_file: None, name: Some("broken".to_string()), size: None },
        RawEntry { ok: false, is_file: None, name: None, size: None },
        file_entry("b", 0),
    ];
    let out = r.list(Some(dir)).unwrap();
    assert_eq!(out, "[{\"name\":\"a.txt\",\"size\":3},{\"name\":\"b\",\"size\":0}]");
}

#[test]
fn undecodable_name_skips_the_entry() {
    let r = resource("/data");
    let dir = vec![
        RawEntry { ok: true, is_file: Some(true), name: None, size: Some(5) },
        file_entry("kept", 1),
    ];
    let out = r.list(Some(dir)).unwrap();
    assert_eq!(out, "[{\"name\":\"kept\",\"size\":1}]");
}

#[test]
fn unknown_size_is_reported_as_zero() {
    let r = resource("/data");
    let dir = vec![RawEntry {
        ok: true,
        is_file: Some(true),
        name: Some("odd".to_string()),
        size: None,
    }];
    let out = r.list(Some(dir)).unwrap();
    assert_eq!(out, "[{\"name\":\"odd\",\"size\":0}]");
}

#[test]
fn unreadable_directory_fails_the_request() {
    let r = resource("/does-not-exist");
    let out = r.list(None);
    assert!(matches!(out, Err(ListError::DirUnreadable)));
}

#[test]
fn entry_result_to_blobdesc_accepts_a_regular_file() {
    let d = BlobResource::entry_result_to_blobdesc(file_entry("f", 42)).unwrap();
    assert_eq!(d.name, "f");
    assert_eq!(d.size, 42);
}

#[test]
fn entry_result_to_blobdesc_rejects_errors_and_non_files() {
    assert!(BlobResource::entry_result_to_blobdesc(RawEntry {
        ok: false,
        is_file: Some(true),
        name: Some("x".to_string()),
        size: Some(1),
    })
    .is_none());
    assert!(BlobResource::entry_result_to_blobdesc(RawEntry {
        ok: true,
        is_file: Some(false),
        name: Some("x".to_string()),
        size: Some(1),
    })
    .is_none());
    assert!(BlobResource::entry_result_to_blobdesc(RawEntry {
        ok: true,
        is_file: None,
        name: Some("x".to_string()),
        size: Some(1),
    })
    .is_none());
    assert!(BlobResource::entry_result_to_blobdesc(RawEntry {
        ok: true,
        is_file: Some(true),
        name: None,
        size: Some(1),
    })
    .is_none());
}

#[test]
fn listing_keeps_enumeration_order() {
    let r = resource("/data");
    let dir = vec![file_entry("z", 1), file_entry("a", 2), file_entry("m", 3)];
    let out = r.list(Some(dir)).unwrap();
    assert_eq!(
        out,
        "[{\"name\":\"z\",\"size\":1},{\"name\":\"a\",\"size\":2},{\"name\":\"m\",\"size\":3}]"
    );
}

#[test]
fn list_blobs_maps_entries_directly() {
    let r = resource("/data");
    let blobs: Vec<BlobDesc> = r.list_blobs(vec![
        file_entry("one", 10),
        RawEntry { ok: true, is_file: Some(false), name: Some("d".to_string()), size: None },
    ]);
    assert_eq!(blobs.len(), 1);
    assert_eq!(blobs[0].name, "one");
    assert_eq!(blobs[0].size, 10);
}
