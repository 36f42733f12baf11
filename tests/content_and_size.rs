use share_these::content::determine_content_type;
use share_these::text::{decimal_string, format_size};

#[test]
fn content_types_by_extension() {
    assert_eq!(determine_content_type("a.txt"), "text/plain");
    assert_eq!(determine_content_type("b.md"), "text/plain");
    assert_eq!(determine_content_type("index.html"), "text/html");
    assert_eq!(determine_content_type("index.htm"), "text/html");
    assert_eq!(determine_content_type("site.css"), "text/css");
    assert_eq!(determine_content_type("app.js"), "application/javascript");
    assert_eq!(determine_content_type("data.json"), "application/json");
    assert_eq!(determine_content_type("p.png"), "image/png");
    assert_eq!(determine_content_type("p.jpg"), "image/jpeg");
    assert_eq!(determine_content_type("p.jpeg"), "image/jpeg");
    assert_eq!(determine_content_type("p.gif"), "image/gif");
    assert_eq!(determine_content_type("logo.svg"), "image/svg+xml");
    assert_eq!(determine_content_type("doc.pdf"), "application/pdf");
}

#[test]
fn unknown_or_missing_extensions_are_octet_stream() {
    assert_eq!(determine_content_type("noext"), "application/octet-stream");
    assert_eq!(determine_content_type(".bashrc"), "application/octet-stream");
    assert_eq!(determine_content_type("archive.tar.gz"), "application/octet-stream");
    assert_eq!(determine_content_type("INDEX.HTML"), "application/octet-stream");
    assert_eq!(determine_content_type("trailing."), "application/octet-stream");
    assert_eq!(determine_content_type(""), "application/octet-stream");
    assert_eq!(determine_content_type("notes.txt.md"), "text/plain");
}

#[test]
fn sizes_below_a_kib_are_whole_bytes() {
    assert_eq!(format_size(0), "0 B");
    assert_eq!(format_size(5), "5 B");
    assert_eq!(format_size(1023), "1023 B");
}

#[test]
fn larger_sizes_have_one_decimal() {
    assert_eq!(format_size(1024), "1.0 KB");
    assert_eq!(format_size(1536), "1.5 KB");
    assert_eq!(format_size(1280), "1.2 KB");
    assert_eq!(format_size(1048575), "1024.0 KB");
    assert_eq!(format_size(1048576), "1.0 MB");
    assert_eq!(format_size(5 * 1048576 + 314573), "5.3 MB");
    assert_eq!(format_size(1073741824), "1.0 GB");
    assert_eq!(format_size(3 * 1073741824 + 536870912), "3.5 GB");
}

#[test]
fn sizes_match_one_decimal_float_formatting() {
    for size in [1024u64, 1100, 1280, 1500, 2047, 4096, 100000, 1048575, 1048576, 7340032, 999999999, 1073741824, 123456789012] {
        let expected = if size < 1024 * 1024 {
            format!("{:.1} KB", size as f64 / 1024.0)
        } else if size < 1024 * 1024 * 1024 {
            format!("{:.1} MB", size as f64 / 1048576.0)
        } else {
            format!("{:.1} GB", size as f64 / 1073741824.0)
        };
        assert_eq!(format_size(size), expected);
    }
}

#[test]
fn decimal_text_of_numbers() {
    assert_eq!(decimal_string(0), "0");
    assert_eq!(decimal_string(7), "7");
    assert_eq!(decimal_string(1234567890), "1234567890");
    assert_eq!(decimal_string(u64::MAX as u128), "18446744073709551615");
}
