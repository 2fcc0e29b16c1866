use fat_rs::archive::{summarize_rar, summarize_zip, walk, ArchiveSummary, EntryRecord, Method, Timestamp};
use fat_rs::clock::timestamp_from_unix;
use fat_rs::catalog::{Catalog, ExtensionInfo};
use fat_rs::decimal::{decimal, decimal_padded};
use fat_rs::dispatch::{container_format, extension_of, ContainerFormat, IntrospectionError};
use fat_rs::path::{is_safe_path, sanitized_path};
use fat_rs::render::{entry_line, entry_lines, format_timestamp, method_name, methods_line, totals_line};
use fat_rs::units::{format_ratio, format_size, ratio};

fn rec(name: &str, dir: bool, c: u64, u: u64, method: Method) -> EntryRecord {
    EntryRecord {
        name: name.to_string(),
        is_directory: dir,
        compressed_size: Some(c),
        uncompressed_size: u,
        method,
        crc32: if dir { None } else { Some(12345) },
        last_modified: None,
        comment: String::new(),
        encrypted: false,
    }
}

fn paths(s: &ArchiveSummary) -> Vec<String> {
    s.entries.iter().map(|e| e.path.clone()).collect()
}

fn info(ext: &str, name: &str) -> ExtensionInfo {
    ExtensionInfo {
        extension: ext.to_string(),
        name: name.to_string(),
        description: String::from("d"),
        further_reading: String::from("r"),
        preferred_mime: String::from("application/zip"),
        mime: vec![String::from("application/zip"), String::from("application/x-zip")],
    }
}

#[test]
fn listed_sizes_add_up_to_total() {
    let rs = vec![
        Ok(rec("a/", true, 0, 0, Method::Stored)),
        Ok(rec("a/x.txt", false, 40, 100, Method::Deflated)),
        Ok(rec("b.bin", false, 7, 7, Method::Stored)),
    ];
    let s = summarize_zip(String::new(), &rs);
    let sum: u128 = s.entries.iter().map(|e| e.uncompressed_size as u128).sum();
    assert_eq!(sum, 107);
    assert_eq!(s.total_uncompressed_size, 107);
    assert_eq!(s.total_compressed_size, 47);
}

#[test]
fn totals_count_suspicious_entries_too() {
    let rs = vec![
        Ok(rec("../up.txt", false, 5, 10, Method::Stored)),
        Ok(rec("ok.txt", false, 1, 2, Method::Stored)),
    ];
    let s = summarize_zip(String::new(), &rs);
    assert_eq!(s.total_uncompressed_size, 12);
    assert_eq!(paths(&s), vec!["ok.txt".to_string()]);
}

#[test]
fn ratio_stays_within_bounds() {
    assert_eq!(ratio(0, 0), 0);
    assert_eq!(ratio(5, 0), 10000);
    assert_eq!(ratio(200, 100), 10000);
    assert_eq!(ratio(50, 100), 5000);
    assert_eq!(ratio(u64::MAX - 1, u64::MAX), 9999);
    assert_eq!(format_ratio(1, 3), "33.33%");
    assert_eq!(format_ratio(0, 0), "0.00%");
    assert_eq!(format_ratio(9, 0), "100.00%");
    assert_eq!(format_ratio(1, 200), "0.50%");
}

#[test]
fn traversal_path_is_flagged_and_plain_path_passes() {
    assert_eq!(sanitized_path("../../etc/passwd"), None);
    assert_eq!(sanitized_path("a/b/c.txt"), Some("a/b/c.txt".to_string()));
    assert!(!is_safe_path("/etc/passwd"));
    assert!(!is_safe_path("a/../../b"));
    assert!(!is_safe_path(".."));
    assert!(!is_safe_path("x//../../y"));
    assert!(!is_safe_path("nul\0byte"));
    assert_eq!(sanitized_path("a/../b"), Some("b".to_string()));
    assert_eq!(sanitized_path("./a//b/./c/../d"), Some("a/b/d".to_string()));
    assert_eq!(sanitized_path("docs/"), Some("docs/".to_string()));
    assert_eq!(sanitized_path("a/b/../"), Some("a/".to_string()));
    assert_eq!(sanitized_path("a/.."), Some("".to_string()));
    assert_eq!(sanitized_path("a\\..\\b"), Some("a\\..\\b".to_string()));
    assert!(is_safe_path("a/..b/c"));
    assert!(is_safe_path("a/b../c"));
    assert!(is_safe_path(""));
    let rs = vec![
        Ok(rec("../../etc/passwd", false, 1, 1, Method::Stored)),
        Ok(rec("a/b/c.txt", false, 1, 1, Method::Stored)),
    ];
    let s = summarize_zip(String::new(), &rs);
    assert_eq!(paths(&s), vec!["a/b/c.txt".to_string()]);
    assert_eq!(s.suspicious_paths, vec!["../../etc/passwd".to_string()]);
    let inside = vec![Ok(rec("a/../b.txt", false, 1, 1, Method::Stored))];
    let s = summarize_zip(String::new(), &inside);
    assert_eq!(paths(&s), vec!["b.txt".to_string()]);
    assert!(s.suspicious_paths.is_empty());
}

#[test]
fn unknown_extension_gives_fallback_name() {
    let cat = Catalog { extensions: vec![info("zip", "ZIP archive"), info("zip", "Second"), info("rar", "RAR archive")] };
    assert_eq!(cat.display_name("xyz"), "unknown type");
    assert_eq!(cat.display_name("ZIP"), "unknown type");
    assert_eq!(cat.display_name("zip"), "ZIP archive");
    assert_eq!(cat.display_name("rar"), "RAR archive");
    assert_eq!(cat.position("zip"), Some(0));
    assert_eq!(cat.lookup("zip").map(|i| i.name.clone()), Some("ZIP archive".to_string()));
    assert_eq!(cat.position("none"), None);
    assert!(cat.lookup("none").is_none());
    let empty = Catalog { extensions: Vec::new() };
    assert_eq!(empty.display_name(""), "unknown type");
}

#[test]
fn alternate_mimes_skip_preferred() {
    let i = info("zip", "ZIP archive");
    assert_eq!(i.alternate_mimes(), vec!["application/x-zip".to_string()]);
}

#[test]
fn stored_directory_then_deflated_file() {
    let rs = vec![
        Ok(rec("dir/", true, 0, 0, Method::Stored)),
        Ok(rec("dir/f.txt", false, 10, 30, Method::Deflated)),
    ];
    let s = summarize_zip(String::new(), &rs);
    assert_eq!(s.compression_methods_used, vec![Method::Stored, Method::Deflated]);
    assert_eq!(methods_line(&s.compression_methods_used), "# Compression methods used: Stored Deflated ");
}

#[test]
fn methods_keep_first_appearance_order() {
    let rs = vec![
        Ok(rec("f.txt", false, 10, 30, Method::Deflated)),
        Ok(rec("d/", true, 0, 0, Method::Stored)),
        Ok(rec("g.txt", false, 10, 30, Method::Deflated)),
    ];
    let s = summarize_zip(String::new(), &rs);
    assert_eq!(s.compression_methods_used, vec![Method::Deflated, Method::Stored]);
}

#[test]
fn multi_volume_rar_lists_nothing() {
    let rs = vec![Ok(rec("part.txt", false, 3, 9, Method::Unsupported(0x33)))];
    let s = summarize_rar(false, true, None, &rs);
    assert!(s.is_multi_volume);
    assert!(s.entries.is_empty());
    assert!(s.compression_methods_used.is_empty());
    assert_eq!(s.total_uncompressed_size, 0);
}

#[test]
fn single_volume_rar_lists_and_keeps_warning() {
    let rs = vec![Ok(rec("part.txt", false, 3, 9, Method::Unsupported(0x33))), Err("bad header".to_string())];
    let s = summarize_rar(true, false, Some("damaged".to_string()), &rs);
    assert!(!s.is_multi_volume);
    assert_eq!(paths(&s), vec!["part.txt".to_string()]);
    assert_eq!(s.unreadable, vec!["bad header".to_string()]);
    assert_eq!(s.archive_comment, Some("currently not supported".to_string()));
    assert_eq!(s.recoverable_error, Some("damaged".to_string()));
}

#[test]
fn introspection_is_deterministic() {
    let rs = vec![
        Ok(rec("a.txt", false, 4, 8, Method::Deflated)),
        Err("encrypted".to_string()),
        Ok(rec("../x", false, 1, 1, Method::Stored)),
        Ok(rec("b/", true, 0, 0, Method::Stored)),
    ];
    let s1 = walk(&rs);
    let s2 = walk(&rs);
    let l1: Vec<String> = s1.entries.iter().map(|e| entry_line(e, "t", false)).collect();
    let l2: Vec<String> = s2.entries.iter().map(|e| entry_line(e, "t", false)).collect();
    assert_eq!(l1, l2);
    assert_eq!(s1.compression_methods_used, s2.compression_methods_used);
    assert_eq!(s1.unreadable, vec!["encrypted".to_string()]);
}

#[test]
fn units_show_the_same_count() {
    assert_eq!(format_size(1024, false), "1024");
    assert_eq!(format_size(1024, true), "1.0 kiB");
    assert_eq!(format_size(1000, true), "1000 B");
    assert_eq!(format_size(0, false), "0");
    assert_eq!(format_size(u64::MAX, false), "18446744073709551615");
    assert_eq!(format_size(1536, true), "1.5 kiB");
    assert_eq!(format_size(3 * 1024 * 1024, true), "3.0 MiB");
}

#[test]
fn decimal_rendering() {
    assert_eq!(decimal(0), "0");
    assert_eq!(decimal(907), "907");
    assert_eq!(decimal_padded(7, 2), "07");
    assert_eq!(decimal_padded(1980, 4), "1980");
    assert_eq!(decimal_padded(123, 2), "123");
}

#[test]
fn entry_line_rendering() {
    let mut e = rec("docs/readme.txt", false, 50, 200, Method::Deflated);
    e.last_modified = Some(Timestamp { year: 1999, month: 2, day: 3, hour: 4, minute: 5, second: 6 });
    e.encrypted = true;
    e.comment = "hello".to_string();
    let s = summarize_zip("archive note".to_string(), &vec![Ok(e), Ok(rec("docs/", true, 0, 0, Method::Stored))]);
    assert_eq!(s.archive_comment, Some("archive note".to_string()));
    assert_eq!(s.entries[0].comment, Some("hello".to_string()));
    assert_eq!(s.entries[1].comment, None);
    assert_eq!(
        entry_line(&s.entries[0], "Text", false),
        "\"docs/readme.txt\" (50/200) (25.00%) (Text) (last modified: 1999-02-03 04:05:06) (12345) (encrypted)"
    );
    assert_eq!(entry_line(&s.entries[1], "Text", false), "\"docs/\"");
    let plain = summarize_zip(String::new(), &vec![Ok(rec("x", false, 1, 2, Method::Stored))]);
    assert_eq!(plain.archive_comment, None);
    assert_eq!(
        entry_line(&plain.entries[0], "unknown type", false),
        "\"x\" (1/2) (50.00%) (unknown type) (last modified: unavailable) (12345)"
    );
}

#[test]
fn timestamps_and_method_names() {
    assert_eq!(format_timestamp(None), "unavailable");
    assert_eq!(
        format_timestamp(Some(Timestamp { year: 1980, month: 1, day: 1, hour: 0, minute: 0, second: 0 })),
        "1980-01-01 00:00:00"
    );
    assert_eq!(method_name(Method::Stored), "Stored");
    assert_eq!(method_name(Method::Unsupported(12)), "Unsupported(12)");
    assert_eq!(Method::from_code(0), Method::Stored);
    assert_eq!(Method::from_code(8), Method::Deflated);
    assert_eq!(Method::from_code(12), Method::Bzip2);
    assert_eq!(Method::from_code(7), Method::Unsupported(7));
    assert_eq!(Method::from_rar_code(0x30), Method::Stored);
    assert_eq!(Method::from_rar_code(0x33), Method::Rar(3));
    assert_eq!(Method::from_rar_code(0x36), Method::Unsupported(0x36));
    assert_eq!(Method::from_rar_code(0x1_0000), Method::Unsupported(0xffff));
    assert_eq!(method_name(Method::Rar(5)), "Rar(5)");
}

#[test]
fn totals_line_renders_ratio() {
    let rs = vec![Ok(rec("a", false, 256, 1024, Method::Deflated))];
    let s = summarize_zip(String::new(), &rs);
    assert_eq!(totals_line(&s, false), "# Compressed size: 256/1024 (25.00%)");
    assert_eq!(totals_line(&s, true), "# Compressed size: 256 B/1.0 kiB (25.00%)");
}

#[test]
fn format_dispatch_and_extensions() {
    assert!(matches!(container_format("zip"), Ok(ContainerFormat::Zip)));
    assert!(matches!(container_format("rar"), Ok(ContainerFormat::Rar)));
    assert!(matches!(container_format("ZIP"), Err(IntrospectionError::UnsupportedFormat)));
    assert!(matches!(container_format(""), Err(IntrospectionError::UnsupportedFormat)));
    assert_eq!(extension_of("a/b/c.txt"), "txt");
    assert_eq!(extension_of("a.tar.gz"), "gz");
    assert_eq!(extension_of("dir.d/file"), "");
    assert_eq!(extension_of(".bashrc"), "");
    assert_eq!(extension_of("name."), "");
    assert_eq!(extension_of(""), "");
}

#[test]
fn entry_lines_use_catalog_names() {
    let cat = Catalog { extensions: vec![info("txt", "Plain text")] };
    let rs = vec![
        Ok(rec("a/notes.txt", false, 1, 4, Method::Stored)),
        Ok(rec("b.dat", false, 2, 4, Method::Stored)),
    ];
    let s = summarize_zip(String::new(), &rs);
    let lines = entry_lines(&s, &cat, false);
    assert_eq!(lines.len(), 2);
    assert_eq!(lines[0], "\"a/notes.txt\" (1/4) (25.00%) (Plain text) (last modified: unavailable) (12345)");
    assert_eq!(lines[1], "\"b.dat\" (2/4) (50.00%) (unknown type) (last modified: unavailable) (12345)");
}

#[test]
fn dos_timestamps_decode() {
    // 2009-06-15 13:45:30
    let d: u32 = ((2009 - 1980) << 25) | (6 << 21) | (15 << 16) | (13 << 11) | (45 << 5) | 15;
    let t = Timestamp::from_dos(d);
    assert_eq!(t, Timestamp { year: 2009, month: 6, day: 15, hour: 13, minute: 45, second: 30 });
    assert_eq!(format_timestamp(Some(t)), "2009-06-15 13:45:30");
}

#[test]
fn unix_times_become_utc_timestamps() {
    assert_eq!(
        timestamp_from_unix(0),
        Some(Timestamp { year: 1970, month: 1, day: 1, hour: 0, minute: 0, second: 0 })
    );
    assert_eq!(
        timestamp_from_unix(1_000_000_000),
        Some(Timestamp { year: 2001, month: 9, day: 9, hour: 1, minute: 46, second: 40 })
    );
    assert_eq!(
        timestamp_from_unix(-1),
        Some(Timestamp { year: 1969, month: 12, day: 31, hour: 23, minute: 59, second: 59 })
    );
    assert_eq!(timestamp_from_unix(i64::MIN), None);
    assert_eq!(format_timestamp(timestamp_from_unix(86_400 * 365)), "1971-01-01 00:00:00");
}

#[test]
fn unknown_compressed_size_is_reported_unavailable() {
    let mut e = rec("r.txt", false, 0, 9, Method::Unsupported(0x33));
    e.compressed_size = None;
    let s = summarize_rar(false, false, None, &vec![Ok(e), Ok(rec("k.txt", false, 2, 4, Method::Stored))]);
    assert_eq!(s.entries[0].compressed_size, None);
    assert_eq!(s.total_compressed_size, 2);
    assert_eq!(s.total_uncompressed_size, 13);
    assert_eq!(
        entry_line(&s.entries[0], "Text", false),
        "\"r.txt\" (unavailable/9) (unavailable) (Text) (last modified: unavailable) (12345)"
    );
}
