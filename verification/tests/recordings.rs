use segy_core::gps::{gps_to_map, parse_gps_line, parse_gps_text};
use segy_core::synth::Coordinates;
use segy_core::parser::{parse_samples_line, MseismFile};
use segy_core::text::{chars_of, float_literal, words_of, Sep};
use segy_core::time::{format_utc, UtcTime};
use segy_core::SegyError;

fn parse_error(r: Result<MseismFile, SegyError>) -> String {
    match r {
        Err(SegyError::Parse(m)) => m,
        other => panic!("unexpected {:?}", other),
    }
}

#[test]
fn epoch_reads_as_first_day() {
    let t = UtcTime::from_timestamp(0).unwrap();
    assert_eq!((t.year(), t.month(), t.day(), t.ordinal()), (1970, 1, 1, 1));
    assert_eq!((t.hour(), t.minute(), t.second()), (0, 0, 0));
    assert_eq!(format_utc(&t, "%Y-%m-%d %H:%M:%S UTC"), "1970-01-01 00:00:00 UTC");
    let t = UtcTime::from_timestamp(1_782_691_140).unwrap();
    assert_eq!(format_utc(&t, "%Y%m%d_%H%M"), "20260628_2359");
    assert_eq!(format_utc(&t, "%j"), "179");
    assert_eq!((t.hour(), t.minute(), t.second()), (23, 59, 0));
    let t = UtcTime::from_timestamp(-30).unwrap();
    assert_eq!((t.year(), t.hour(), t.minute(), t.second()), (1969, 23, 59, 30));
    assert!(UtcTime::from_timestamp(i64::MAX).is_none());
}

#[test]
fn recording_parses() {
    let text = "2026-01-25 00:00:00,713,10451.92567,2930.01390,369.9\r\n1.0 2.0\n\n  3.0\t-4e2 \n2026-01-25 00:01:00,1,2,3,4\n";
    let f = MseismFile::parse(text, Some("2026-01-25_00_00-24002")).unwrap();
    assert_eq!(f.device_id, "24002");
    assert_eq!(format_utc(&f.start_time, "%Y-%m-%d %H:%M:%S"), "2026-01-25 00:00:00");
    assert_eq!(f.status_code, 713);
    assert_eq!(f.x, "10451.92567");
    assert_eq!(f.y, "2930.01390");
    assert_eq!(f.elevation, "369.9");
    assert_eq!(f.samples, vec!["1.0", "2.0", "3.0", "-4e2"]);
    assert_eq!(f.sample_count, 4);
}

#[test]
fn recording_status_defaults_to_zero_and_stem_may_be_missing() {
    let f = MseismFile::parse("2026-01-25 00:00:00, x ,1,2,3\n5\n", None).unwrap();
    assert_eq!(f.status_code, 0);
    assert_eq!(f.device_id, "");
    assert_eq!(f.sample_count, 1);
}

#[test]
fn recording_errors() {
    assert_eq!(
        parse_error(MseismFile::parse("1.0 2.0\n", Some("a-1"))),
        "No valid header line found in file"
    );
    assert_eq!(
        parse_error(MseismFile::parse("bad,1,2,3,4\n", Some("a-1"))),
        "Failed to parse time 'bad': input contains invalid characters"
    );
    assert_eq!(
        parse_error(MseismFile::parse("2026-01-25 00:00:00,1,2,3,4\n1.0 x1 y2\n", Some("a-1"))),
        "Failed to parse float 'x1': invalid float literal"
    );
    // a line with a comma but fewer than five fields is a sample line
    assert_eq!(
        parse_error(MseismFile::parse("2026-01-25 00:00:00,1,2,3,4\n1,2\n", Some("a-1"))),
        "Failed to parse float '1,2': invalid float literal"
    );
}

#[test]
fn sample_line_stops_at_first_bad_token() {
    let mut out = vec!["0".to_string()];
    match parse_samples_line("1 2 oops 3", &mut out) {
        Err(SegyError::Parse(m)) => assert_eq!(m, "Failed to parse float 'oops': invalid float literal"),
        other => panic!("unexpected {:?}", other),
    }
    assert_eq!(out, vec!["0", "1", "2"]);
}

#[test]
fn float_literals_follow_std() {
    for s in ["1", "-1.5", "+.5", "5.", "1e3", "1E-3", "inf", "-Infinity", "NaN", "0.0e+0"] {
        assert!(float_literal(&chars_of(s)), "{}", s);
        assert!(s.parse::<f32>().is_ok());
    }
    for s in ["", ".", "e3", "1e", "1.2.3", "--1", "infin", "0x1", "1_0", " 1"] {
        assert!(!float_literal(&chars_of(s)), "{}", s);
        assert!(s.parse::<f32>().is_err());
    }
}

#[test]
fn words_split_on_blanks_only() {
    let w = words_of(&chars_of(" a\tb  c\r "), Sep::Blank);
    let w: Vec<String> = w.iter().map(|p| p.iter().collect()).collect();
    assert_eq!(w, vec!["a", "b", "c\r"]);
}

#[test]
fn gps_table_reads() {
    let text = "S1 116.1 39.9 50.0 500000.5 4400000.25\n\n  S2\t1 2 3 4 5 extra\r\n";
    let v = parse_gps_text(text).unwrap();
    assert_eq!(v.len(), 2);
    assert_eq!(v[0].device_id, "S1");
    assert_eq!(v[0].longitude, "116.1");
    assert_eq!(v[0].utm_y, "4400000.25");
    assert_eq!(v[1].device_id, "S2");
    assert_eq!(v[1].utm_y, "5");
}

#[test]
fn gps_table_errors() {
    match parse_gps_text("S1 1 2\n") {
        Err(SegyError::Parse(m)) => assert_eq!(m, "GPS line 1 has 3 fields, expected at least 6"),
        other => panic!("unexpected {:?}", other),
    }
    match parse_gps_text("S0 1 2 3 4 5\n\nS1 x 2 3 4 5\nS2 1\n") {
        Err(SegyError::Parse(m)) => assert_eq!(m, "GPS line 3: invalid longitude: invalid float literal"),
        other => panic!("unexpected {:?}", other),
    }
    match parse_gps_text("S1 1 2 3 4 y\n") {
        Err(SegyError::Parse(m)) => assert_eq!(m, "GPS line 1: invalid utm_y: invalid float literal"),
        other => panic!("unexpected {:?}", other),
    }
    assert_eq!(parse_gps_text("").unwrap().len(), 0);
}

#[test]
fn gps_lines_read_one_at_a_time() {
    assert!(parse_gps_line("   ", 4).unwrap().is_none());
    let f = parse_gps_line("S9 1 2 3 4.5 6", 2).unwrap().unwrap();
    assert_eq!((f.device_id.as_str(), f.utm_x.as_str(), f.utm_y.as_str()), ("S9", "4.5", "6"));
    match parse_gps_line("S9 1 2", 7) {
        Err(SegyError::Parse(m)) => assert_eq!(m, "GPS line 7 has 3 fields, expected at least 6"),
        other => panic!("unexpected {:?}", other),
    }
}

fn at(x: i32) -> Coordinates {
    Coordinates { x, y: x + 1, elevation: x + 2 }
}

#[test]
fn gps_table_keeps_the_later_station() {
    let t = gps_to_map(vec![("A".to_string(), at(1)), ("B".to_string(), at(5)), ("A".to_string(), at(9))]);
    assert_eq!(t.entries.len(), 2);
    let a = t.get("A").unwrap();
    assert_eq!((a.x, a.y, a.elevation), (9, 10, 11));
    assert_eq!(t.get("B").unwrap().x, 5);
    assert!(t.get("C").is_none());
    assert!(gps_to_map(Vec::new()).get("A").is_none());
}
