use share_these::range::{parse_range, ByteRange, RangeError};

#[test]
fn open_range_from_zero_covers_file() {
    assert_eq!(parse_range("bytes=0-", 5), Ok(ByteRange { start: 0, end: 4 }));
    assert_eq!(parse_range("bytes=0-", 1), Ok(ByteRange { start: 0, end: 0 }));
}

#[test]
fn start_at_size_is_rejected() {
    let r = parse_range("bytes=5-", 5);
    assert_eq!(r, Err(RangeError::Unsatisfiable { start: 5, size: 5 }));
    assert_eq!(r.unwrap_err().status(), 416);
    assert_eq!(parse_range("bytes=9-", 5), Err(RangeError::Unsatisfiable { start: 9, size: 5 }));
    assert_eq!(parse_range("bytes=4-", 5), Ok(ByteRange { start: 4, end: 4 }));
    let empty = parse_range("bytes=0-", 0);
    assert_eq!(empty, Err(RangeError::Unsatisfiable { start: 0, size: 0 }));
    assert_eq!(empty.unwrap_err().status(), 416);
}

#[test]
fn start_past_explicit_end_of_file_is_unsatisfiable() {
    let r = parse_range("bytes=7-9", 5);
    assert_eq!(r, Err(RangeError::Unsatisfiable { start: 7, size: 5 }));
    assert_eq!(r.unwrap_err().status(), 416);
}

#[test]
fn reversed_range_is_invalid() {
    for size in [0u64, 5, 20, 1000] {
        let r = parse_range("bytes=10-5", size);
        assert_eq!(r, Err(RangeError::Invalid { start: 10, end: 5 }));
        assert_eq!(r.unwrap_err().status(), 400);
    }
}

#[test]
fn end_past_file_is_clamped() {
    assert_eq!(parse_range("bytes=1-100", 5), Ok(ByteRange { start: 1, end: 4 }));
    assert_eq!(parse_range("bytes=1-3", 5), Ok(ByteRange { start: 1, end: 3 }));
}

#[test]
fn empty_positions_take_defaults() {
    assert_eq!(parse_range("bytes=-", 5), Ok(ByteRange { start: 0, end: 4 }));
    assert_eq!(parse_range("bytes=-2", 5), Ok(ByteRange { start: 0, end: 2 }));
    assert_eq!(parse_range("bytes=+1-+2", 5), Ok(ByteRange { start: 1, end: 2 }));
}

#[test]
fn other_units_are_unsupported() {
    assert_eq!(parse_range("items=0-1", 5), Err(RangeError::UnsupportedUnit));
    assert_eq!(parse_range("bytes", 5), Err(RangeError::UnsupportedUnit));
    assert_eq!(parse_range("", 5), Err(RangeError::UnsupportedUnit));
    assert_eq!(RangeError::UnsupportedUnit.status(), 400);
}

#[test]
fn malformed_ranges_are_rejected() {
    assert_eq!(parse_range("bytes=0-1,3-4", 5), Err(RangeError::Malformed));
    assert_eq!(parse_range("bytes=1-2-3", 5), Err(RangeError::Malformed));
    assert_eq!(parse_range("bytes=12", 5), Err(RangeError::Malformed));
    assert_eq!(parse_range("bytes=a-3", 5), Err(RangeError::Malformed));
    assert_eq!(parse_range("bytes=+-3", 5), Err(RangeError::Malformed));
    assert_eq!(parse_range("bytes=99999999999999999999-", 5), Err(RangeError::Malformed));
    assert_eq!(RangeError::Malformed.status(), 400);
}

#[test]
fn largest_number_parses() {
    assert_eq!(
        parse_range("bytes=0-18446744073709551615", 10),
        Ok(ByteRange { start: 0, end: 9 })
    );
    assert_eq!(parse_range("bytes=0-18446744073709551616", 10), Err(RangeError::Malformed));
}

#[test]
fn range_length_counts_both_ends() {
    assert_eq!(ByteRange { start: 1, end: 3 }.len(), 3);
    assert_eq!(ByteRange { start: 0, end: 0 }.len(), 1);
}
