use share_these::bounded::BoundedReader;
use share_these::cache::SmallFileCache;
use share_these::content::determine_content_type;
use share_these::delivery::{
    begin_file_request, content_range_value, plan_sized, remember_small_file, whole_file_strategy,
    FileStep, SizedPlan, WholeFile,
};
use share_these::error::ServeError;
use share_these::listing::{build_listing, EntryInfo};
use share_these::range::ByteRange;
use share_these::text::format_size;
use share_these::MAX_CACHE_FILE_SIZE;

/// Reads through a bounded reader from an in-memory source, with the given
/// buffer sizes, the way a stream would.
fn drain(source: &[u8], budget: u64, buffers: &[usize]) -> (Vec<u8>, bool) {
    let mut reader = BoundedReader::new(0usize, budget);
    let mut out = Vec::new();
    for &space in buffers {
        if reader.is_exhausted() {
            break;
        }
        let limit = reader.read_limit(space);
        let pos = reader.inner;
        let n = limit.min(source.len() - pos);
        out.extend_from_slice(&source[pos..pos + n]);
        reader.inner += n;
        reader.record_read(n);
    }
    (out, reader.is_exhausted())
}

#[test]
fn bounded_reader_stops_at_budget() {
    let source = vec![7u8; 1000];
    for buffers in [vec![3usize, 4, 8, 100], vec![1; 30], vec![8192], vec![10, 10, 10]] {
        let (out, done) = drain(&source, 10, &buffers);
        assert_eq!(out.len(), 10);
        assert!(done);
    }
    let mut reader = BoundedReader::new((), 10);
    reader.record_read(10);
    assert_eq!(reader.read_limit(8192), 0);
    assert_eq!(reader.remaining(), 0);
}

#[test]
fn bounded_reader_with_one_byte_per_read_source() {
    let mut reader = BoundedReader::new((), 10);
    let mut total = 0usize;
    let mut reads = 0;
    while !reader.is_exhausted() {
        let limit = reader.read_limit(8192);
        let n = limit.min(1);
        reader.record_read(n);
        total += n;
        reads += 1;
    }
    assert_eq!(total, 10);
    assert_eq!(reads, 10);
    assert_eq!(reader.read_limit(8192), 0);
}

#[test]
fn bounded_reader_grants_least_of_budget_and_room() {
    let reader = BoundedReader::new((), 10);
    assert_eq!(reader.read_limit(4), 4);
    assert_eq!(reader.read_limit(50), 10);
    assert!(!reader.is_exhausted());
}

#[test]
fn content_range_header_text() {
    assert_eq!(content_range_value(ByteRange { start: 1, end: 3 }, 5), "bytes 1-3/5");
    assert_eq!(content_range_value(ByteRange { start: 0, end: 0 }, 1), "bytes 0-0/1");
}

#[test]
fn open_range_gets_whole_file_as_partial_content() {
    let size = 5u64;
    match plan_sized(Some("bytes=0-"), size, "a.txt") {
        SizedPlan::Partial(head, br) => {
            assert_eq!(head.status, 206);
            assert_eq!(head.content_length, 5);
            assert_eq!(head.content_range.as_deref(), Some("bytes 0-4/5"));
            assert!(head.accept_ranges);
            assert_eq!(br, ByteRange { start: 0, end: 4 });
        }
        _ => panic!("expected partial content"),
    }
}

#[test]
fn rejected_ranges_plan_their_status() {
    match plan_sized(Some("bytes=0-"), 0, "empty.txt") {
        SizedPlan::Reject(e) => {
            assert_eq!(e, ServeError::RangeUnsatisfiable);
            assert_eq!(e.status(), 416);
        }
        _ => panic!("expected a rejection"),
    }
    for size in [1u64, 5, 4096] {
        match plan_sized(Some(format!("bytes={}-", size).as_str()), size, "a.txt") {
            SizedPlan::Reject(e) => {
                assert_eq!(e, ServeError::RangeUnsatisfiable);
                assert_eq!(e.status(), 416);
            }
            _ => panic!("expected a rejection"),
        }
    }
    match plan_sized(Some("bytes=10-5"), 50, "a.txt") {
        SizedPlan::Reject(e) => assert_eq!(e.status(), 400),
        _ => panic!("expected a rejection"),
    }
    match plan_sized(Some("lines=1-2"), 50, "a.txt") {
        SizedPlan::Reject(e) => assert_eq!(e, ServeError::RangeMalformed),
        _ => panic!("expected a rejection"),
    }
}

#[test]
fn whole_files_are_buffered_or_streamed_by_size() {
    assert_eq!(whole_file_strategy(MAX_CACHE_FILE_SIZE), WholeFile::Buffer);
    assert_eq!(whole_file_strategy(0), WholeFile::Buffer);
    assert_eq!(whole_file_strategy(MAX_CACHE_FILE_SIZE + 1), WholeFile::Stream);
    assert!(matches!(plan_sized(None, 10, "a.txt"), SizedPlan::Buffer));
    match plan_sized(None, 2 * MAX_CACHE_FILE_SIZE, "big.pdf") {
        SizedPlan::Stream(head) => {
            assert_eq!(head.status, 200);
            assert_eq!(head.content_length, 2 * MAX_CACHE_FILE_SIZE);
            assert_eq!(head.content_type, "application/pdf");
            assert!(head.content_range.is_none());
            assert!(head.accept_ranges);
        }
        _ => panic!("expected streaming"),
    }
}

#[test]
fn second_get_of_small_file_comes_from_cache() {
    let cache = SmallFileCache::new(100);
    let mut disk_reads = 0;
    let mut get = |cache: &SmallFileCache| -> Vec<u8> {
        match begin_file_request(cache, "a.txt", "a.txt", false) {
            FileStep::Respond(head, body) => {
                assert_eq!(head.status, 200);
                assert_eq!(head.content_length as usize, body.len());
                body
            }
            FileStep::NeedSize => {
                disk_reads += 1;
                let (head, body) = remember_small_file(cache, "a.txt", b"hello".to_vec(), "a.txt");
                assert_eq!(head.status, 200);
                body
            }
        }
    };
    let first = get(&cache);
    let second = get(&cache);
    assert_eq!(first, b"hello".to_vec());
    assert_eq!(first, second);
    assert_eq!(disk_reads, 1);
}

#[test]
fn ranged_request_skips_the_cache() {
    let cache = SmallFileCache::new(10);
    cache.put("a.txt", b"hello".to_vec());
    assert!(matches!(begin_file_request(&cache, "a.txt", "a.txt", true), FileStep::NeedSize));
    assert_eq!(cache.get("a.txt"), Some(b"hello".to_vec()));
    assert_eq!(cache.get("missing"), None);
}

#[test]
fn small_site_scenario() {
    let root = vec![
        EntryInfo { name: "docs".to_string(), is_directory: true, size_bytes: 0 },
        EntryInfo { name: "a.txt".to_string(), is_directory: false, size_bytes: 5 },
    ];
    let listing = build_listing(&root, None);
    assert_eq!(listing.folders.len(), 1);
    assert_eq!(listing.folders[0].name, "docs");
    assert_eq!(listing.files.len(), 1);
    assert_eq!(listing.files[0].name, "a.txt");
    assert_eq!(format_size(listing.files[0].size_bytes), "5 B");

    let cache = SmallFileCache::new(100);
    assert!(matches!(begin_file_request(&cache, "a.txt", "a.txt", false), FileStep::NeedSize));
    assert!(matches!(plan_sized(None, 5, "a.txt"), SizedPlan::Buffer));
    let (head, body) = remember_small_file(&cache, "a.txt", b"hello".to_vec(), "a.txt");
    assert_eq!(head.status, 200);
    assert_eq!(head.content_type, "text/plain");
    assert_eq!(determine_content_type("a.txt"), "text/plain");
    assert_eq!(body, b"hello".to_vec());

    match plan_sized(Some("bytes=1-3"), 5, "a.txt") {
        SizedPlan::Partial(head, br) => {
            assert_eq!(head.status, 206);
            assert_eq!(head.content_range.as_deref(), Some("bytes 1-3/5"));
            let (out, done) = drain(&b"hello"[br.start as usize..], br.len(), &[8192]);
            assert_eq!(out, b"ell".to_vec());
            assert!(done);
        }
        _ => panic!("expected partial content"),
    }
}
