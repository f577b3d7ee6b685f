use segy_core::dataset::parse_time_from_filename;
use segy_core::parser::parse_samples_line;
use segy_core::text::{chars_of, split_chars, Sep};
use segy_core::time::format_utc;

fn floats(tokens: &[String]) -> Vec<f32> {
    tokens.iter().map(|t| t.parse::<f32>().unwrap()).collect()
}

#[test]
fn dataset_test_parse_time_from_filename() {
    let t = parse_time_from_filename("2026-01-25_00_00-24002").unwrap();
    assert_eq!(format_utc(&t, "%Y-%m-%d %H:%M"), "2026-01-25 00:00");
}

#[test]
fn monitor_test_parse_time_from_filename() {
    let t = parse_time_from_filename("2026-06-28_23_59-24002").unwrap();
    assert_eq!(format_utc(&t, "%Y-%m-%d %H:%M"), "2026-06-28 23:59");
}

#[test]
fn test_parse_time_cross_midnight() {
    let t = parse_time_from_filename("2026-06-29_00_00-24002").unwrap();
    assert_eq!(format_utc(&t, "%Y-%m-%d %H:%M"), "2026-06-29 00:00");
}

#[test]
fn test_parse_samples_line() {
    let mut out = Vec::new();
    parse_samples_line("1.0 2.5 -3.14", &mut out).unwrap();
    assert_eq!(floats(&out), vec![1.0, 2.5, -3.14]);
}

#[test]
fn test_parse_with_leading_trailing_spaces() {
    let mut out = Vec::new();
    parse_samples_line("  0.5  -1.0  2.0  ", &mut out).unwrap();
    assert_eq!(floats(&out), vec![0.5, -1.0, 2.0]);
}

#[test]
fn test_parse_header_line() {
    let header = "2026-01-25 00:00:00,713,10451.92567,2930.01390,369.9";
    let pieces = split_chars(&chars_of(header), Sep::Char(','));
    let fields: Vec<String> = pieces.iter().map(|p| p.iter().collect()).collect();
    assert_eq!(fields.len(), 5);
    assert_eq!(fields[0], "2026-01-25 00:00:00");
    assert_eq!(fields[1], "713");
    assert_eq!(fields[2], "10451.92567");
    assert_eq!(fields[3], "2930.01390");
    assert_eq!(fields[4], "369.9");
}
