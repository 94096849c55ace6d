use salvo_t::range::{HttpRange, ParseError};

fn pairs(v: Vec<HttpRange>) -> Vec<(u64, u64)> {
    v.into_iter().map(|h| (h.start, h.length)).collect()
}

#[test]
fn test_parse_empty_header() {
    assert_eq!(pairs(HttpRange::parse("", 100).unwrap()), vec![]);
}

#[test]
fn test_parse_closed_span() {
    assert_eq!(pairs(HttpRange::parse("bytes=0-99", 200).unwrap()), vec![(0, 100)]);
}

#[test]
fn test_parse_open_span() {
    assert_eq!(pairs(HttpRange::parse("bytes=50-", 200).unwrap()), vec![(50, 150)]);
}

#[test]
fn test_parse_suffix_span() {
    assert_eq!(pairs(HttpRange::parse("bytes=-500", 200).unwrap()), vec![(0, 200)]);
    assert_eq!(pairs(HttpRange::parse("bytes=-50", 200).unwrap()), vec![(150, 50)]);
}

#[test]
fn test_parse_clips_to_entity() {
    assert_eq!(pairs(HttpRange::parse("bytes=100-999", 200).unwrap()), vec![(100, 100)]);
}

#[test]
fn test_parse_several_spans() {
    assert_eq!(
        pairs(HttpRange::parse("bytes=0-9, 20-29 , 40-", 50).unwrap()),
        vec![(0, 10), (20, 10), (40, 10)]
    );
}

#[test]
fn test_parse_skips_out_of_bounds_span() {
    assert_eq!(pairs(HttpRange::parse("bytes=0-9,500-", 100).unwrap()), vec![(0, 10)]);
}

#[test]
fn test_parse_rejects_all_out_of_bounds() {
    assert_eq!(HttpRange::parse("bytes=500-", 100), Err(ParseError::InvalidRange));
}

#[test]
fn test_parse_rejects_bad_prefix() {
    assert_eq!(HttpRange::parse("units=0-10", 100), Err(ParseError::InvalidRange));
}

#[test]
fn test_parse_rejects_malformed_item() {
    assert_eq!(HttpRange::parse("bytes=abc-", 100), Err(ParseError::InvalidRange));
    assert_eq!(HttpRange::parse("bytes=10", 100), Err(ParseError::InvalidRange));
    assert_eq!(HttpRange::parse("bytes=9-5", 100), Err(ParseError::InvalidRange));
}
