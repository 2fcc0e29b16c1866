use std::io::{Cursor, Write};

use fat_rs::archive::{Method, Timestamp};
use fat_rs::dispatch::IntrospectionError;
use fat_rs::render::entry_line;
use fat_rs::zipread::introspect_zip;
use zip::write::SimpleFileOptions;
use zip::{CompressionMethod, DateTime, ZipWriter};

fn build(dir_first: bool, extra: &[(&str, &[u8])], comment: &str) -> Vec<u8> {
    let mut w = ZipWriter::new(Cursor::new(Vec::new()));
    let stored = SimpleFileOptions::default().compression_method(CompressionMethod::Stored);
    let deflated = SimpleFileOptions::default().compression_method(CompressionMethod::Deflated);
    if dir_first {
        w.add_directory("docs/", stored).unwrap();
    }
    w.start_file("docs/readme.txt", deflated).unwrap();
    w.write_all(&[b'a'; 1000]).unwrap();
    if !dir_first {
        w.add_directory("docs/", stored).unwrap();
    }
    for (name, body) in extra {
        w.start_file(*name, stored).unwrap();
        w.write_all(body).unwrap();
    }
    w.set_comment(comment);
    w.finish().unwrap().into_inner()
}

#[test]
fn stored_directory_and_deflated_file_methods() {
    let s = introspect_zip(build(true, &[], "")).unwrap();
    assert_eq!(s.compression_methods_used, vec![Method::Stored, Method::Deflated]);
    assert_eq!(s.entries.len(), 2);
    assert!(s.entries[0].is_directory);
    assert_eq!(s.entries[0].path, "docs/");
    assert_eq!(s.entries[1].path, "docs/readme.txt");
    assert_eq!(s.entries[1].uncompressed_size, 1000);
    assert!(s.entries[1].compressed_size.unwrap() < 1000);
    assert_eq!(s.archive_comment, None);
}

#[test]
fn deflated_file_first_gives_deflated_first() {
    let s = introspect_zip(build(false, &[], "")).unwrap();
    assert_eq!(s.compression_methods_used, vec![Method::Deflated, Method::Stored]);
}

#[test]
fn zip_totals_and_traversal() {
    let s = introspect_zip(build(true, &[("../../etc/passwd", b"root"), ("a/b/c.txt", b"hello")], "note")).unwrap();
    assert_eq!(s.suspicious_paths, vec!["../../etc/passwd".to_string()]);
    let paths: Vec<&str> = s.entries.iter().map(|e| e.path.as_str()).collect();
    assert_eq!(paths, vec!["docs/", "docs/readme.txt", "a/b/c.txt"]);
    assert_eq!(s.total_uncompressed_size, 1000 + 4 + 5);
    assert_eq!(s.archive_comment, Some("note".to_string()));
    let listed: u128 = s.entries.iter().map(|e| e.uncompressed_size as u128).sum();
    assert_eq!(listed, 1000 + 5);
}

#[test]
fn zip_introspection_repeats_identically() {
    let bytes = build(true, &[("x.bin", b"123")], "c");
    let a = introspect_zip(bytes.clone()).unwrap();
    let b = introspect_zip(bytes).unwrap();
    let la: Vec<String> = a.entries.iter().map(|e| entry_line(e, "t", false)).collect();
    let lb: Vec<String> = b.entries.iter().map(|e| entry_line(e, "t", false)).collect();
    assert_eq!(la, lb);
    assert_eq!(a.compression_methods_used, b.compression_methods_used);
    assert_eq!(a.entries[2].crc32, Some(0x884863d2));
    assert!(a.entries[2].last_modified.is_some());
}

#[test]
fn not_a_zip_is_unreadable() {
    let r = introspect_zip(b"plainly not an archive".to_vec());
    assert!(matches!(r, Err(IntrospectionError::Unreadable(_))));
    assert!(matches!(introspect_zip(Vec::new()), Err(IntrospectionError::Unreadable(_))));
}

#[test]
fn zip_modification_time_is_decoded() {
    let mut w = ZipWriter::new(Cursor::new(Vec::new()));
    let when = DateTime::from_date_and_time(2020, 5, 17, 13, 4, 22).unwrap();
    let opts = SimpleFileOptions::default().compression_method(CompressionMethod::Stored).last_modified_time(when);
    w.start_file("t.txt", opts).unwrap();
    w.write_all(b"x").unwrap();
    let bytes = w.finish().unwrap().into_inner();
    let s = introspect_zip(bytes).unwrap();
    assert_eq!(
        s.entries[0].last_modified,
        Some(Timestamp { year: 2020, month: 5, day: 17, hour: 13, minute: 4, second: 22 })
    );
    assert_eq!(
        entry_line(&s.entries[0], "Text", false),
        "\"t.txt\" (1/1) (100.00%) (Text) (last modified: 2020-05-17 13:04:22) (2363233923)"
    );
}

#[test]
fn zip_comment_bytes_become_text() {
    let s = introspect_zip(build(true, &[], "caf\u{e9}")).unwrap();
    assert_eq!(s.archive_comment, Some("caf\u{e9}".to_string()));
    let truncated = build(true, &[], "");
    assert!(matches!(introspect_zip(truncated[..truncated.len() - 4].to_vec()), Err(IntrospectionError::Unreadable(_))));
}
