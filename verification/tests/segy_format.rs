use segy_core::encode::{push_i16, push_i32, push_u16, push_u32, push_zeros};
use segy_core::header::{BinaryHeader, SegyRevision, TextHeader};
use segy_core::time::UtcTime;
use segy_core::trace::TraceHeader;
use segy_core::writer::SegyWriter;
use segy_core::SegyError;

fn bits(v: &[f32]) -> Vec<u32> {
    v.iter().map(|x| x.to_bits()).collect()
}

#[test]
fn big_endian_integers() {
    let mut out = Vec::new();
    push_u16(&mut out, 0x1234);
    push_u32(&mut out, 0x89ab_cdef);
    push_i16(&mut out, -2);
    push_i32(&mut out, -1000);
    push_zeros(&mut out, 3);
    assert_eq!(
        out,
        vec![0x12, 0x34, 0x89, 0xab, 0xcd, 0xef, 0xff, 0xfe, 0xff, 0xff, 0xfc, 0x18, 0, 0, 0]
    );
}

#[test]
fn revision_codes() {
    assert_eq!(SegyRevision::Rev0.code(), 0x0000);
    assert_eq!(SegyRevision::Rev1.code(), 0x0100);
    assert_eq!(SegyRevision::Rev2.code(), 0x0200);
}

#[test]
fn binary_header_default_bytes() {
    let h = BinaryHeader::default();
    let mut out = Vec::new();
    h.write_to(&mut out);
    assert_eq!(out.len(), 400);
    assert_eq!(&out[24..26], &[0, 5]);
    assert_eq!(&out[26..28], &[0, 1]);
    assert_eq!(&out[54..56], &[0, 1]);
    assert_eq!(&out[300..302], &[2, 0]);
    assert_eq!(&out[302..304], &[0, 1]);
    assert!(out[30..54].iter().all(|b| *b == 0));
    assert!(out[306..].iter().all(|b| *b == 0));
}

#[test]
fn binary_header_revision_zero_is_variable_length() {
    let h = BinaryHeader::default().with_revision(SegyRevision::Rev0);
    assert_eq!(h.segy_revision, 0);
    assert_eq!(h.fixed_length_trace, 0);
    let h = BinaryHeader::default().with_revision(SegyRevision::Rev1);
    assert_eq!(h.segy_revision, 0x0100);
    assert_eq!(h.fixed_length_trace, 1);
}

#[test]
fn text_header_labels_and_ebcdic() {
    let mut h = TextHeader::default();
    assert_eq!(h.lines.len(), 40);
    assert_eq!(h.lines[0], "C 1 ");
    assert_eq!(h.lines[9], "C10 ");
    assert_eq!(h.lines[39], "C40 ");
    h.set_line(2, "AB");
    h.set_line(41, "ignored");
    assert_eq!(h.lines[1], "C 2 AB");
    let mut out = Vec::new();
    h.write_to(&mut out);
    assert_eq!(out.len(), 3200);
    assert_eq!(&out[0..4], &[0xc3, 0x40, 0xf1, 0x40]);
    assert_eq!(&out[80..86], &[0xc3, 0x40, 0xf2, 0x40, 0xc1, 0xc2]);
    assert!(out[86..160].iter().all(|b| *b == 0x40));
}

#[test]
fn text_header_utf8_pads_and_cuts() {
    let mut h = TextHeader::new();
    h.use_utf8 = true;
    let long: String = std::iter::repeat('x').take(100).collect();
    h.set_line(1, &long);
    h.set_line(3, "é");
    let mut out = Vec::new();
    h.write_to(&mut out);
    assert_eq!(out.len(), 3200);
    assert_eq!(&out[0..4], b"C 1 ");
    assert!(out[4..80].iter().all(|b| *b == b'x'));
    assert_eq!(&out[80..84], b"C 2 ");
    assert!(out[84..160].iter().all(|b| *b == b' '));
    assert_eq!(&out[160..166], &[b'C', b' ', b'3', b' ', 0xc3, 0xa9]);
}

#[test]
fn trace_header_positions() {
    let mut h = TraceHeader::default();
    h.trace_sequence_line = 1;
    h.trace_sequence_file = 2;
    h.ensemble_number = 3;
    h.trace_id_code = 1;
    h.scalar_for_coordinates = -1000;
    h.group_x = 0x0102_0304;
    h.number_of_samples = 300;
    let t = UtcTime::from_timestamp(1_769_299_200).unwrap();
    h.set_time(&t);
    let mut out = Vec::new();
    h.write_to(&mut out);
    assert_eq!(out.len(), 240);
    assert_eq!(&out[0..4], &[0, 0, 0, 1]);
    assert_eq!(&out[4..8], &[0, 0, 0, 2]);
    assert_eq!(&out[20..24], &[0, 0, 0, 3]);
    assert_eq!(&out[28..30], &[0, 1]);
    assert_eq!(&out[70..72], &[0xfc, 0x18]);
    assert_eq!(&out[80..84], &[1, 2, 3, 4]);
    assert!(out[90..114].iter().all(|b| *b == 0));
    assert_eq!(&out[114..116], &[1, 44]);
    // 2026-01-25 00:00:00: year 2026, day 25
    assert_eq!(&out[156..158], &[0x07, 0xea]);
    assert_eq!(&out[158..160], &[0, 25]);
    assert!(out[180..].iter().all(|b| *b == 0));
}

#[test]
fn trace_header_standard_offsets() {
    let mut h = TraceHeader::default();
    h.number_of_samples = 3000;
    h.sample_interval = 200;
    h.year = 2026;
    h.weathering_velocity = 0x0102;
    h.delay_recording_time = 0x0304;
    h.number_of_vertically_summed = 7;
    h.number_of_horizontally_summed = 8;
    let mut out = Vec::new();
    h.write_to(&mut out);
    assert_eq!(out.len(), 240);
    assert_eq!(&out[114..116], &[0x0b, 0xb8]);
    assert_eq!(&out[116..118], &[0x00, 0xc8]);
    assert_eq!(&out[156..158], &[0x07, 0xea]);
    assert_eq!(&out[90..92], &[1, 2]);
    assert_eq!(&out[108..110], &[3, 4]);
    assert_eq!(&out[30..32], &[0, 7]);
    assert_eq!(&out[32..34], &[0, 8]);
}

#[test]
fn writer_refuses_trace_before_header() {
    let mut w = SegyWriter::new();
    match w.write_trace(&TraceHeader::default(), &bits(&[1.0])) {
        Err(SegyError::InvalidFormat(m)) => assert_eq!(m, "Must write header before traces"),
        other => panic!("unexpected {:?}", other),
    }
    assert_eq!(w.traces_written(), 0);
    assert_eq!(w.take_output().len(), 0);
}

#[test]
fn writer_layout_and_samples() {
    let mut w = SegyWriter::new();
    let mut bin = BinaryHeader::default();
    bin.samples_per_trace = 3;
    w.write_header(&TextHeader::new(), &bin).unwrap();
    w.write_trace(&TraceHeader::default(), &bits(&[1.0, -2.0, 0.5])).unwrap();
    w.write_trace(&TraceHeader::default(), &bits(&[0.0, 0.0, 0.0])).unwrap();
    assert_eq!(w.traces_written(), 2);
    w.flush().unwrap();
    let bytes = w.finish().unwrap();
    assert_eq!(bytes.len(), 3600 + 2 * (240 + 4 * 3));
    let s = 3600 + 240;
    assert_eq!(&bytes[s..s + 12], &[0x3f, 0x80, 0, 0, 0xc0, 0, 0, 0, 0x3f, 0, 0, 0]);
}

#[test]
fn writer_refuses_other_lengths() {
    let mut w = SegyWriter::new();
    let mut bin = BinaryHeader::default();
    bin.samples_per_trace = 3;
    w.write_header(&TextHeader::new(), &bin).unwrap();
    match w.write_trace(&TraceHeader::default(), &bits(&[1.0, 2.0])) {
        Err(SegyError::DataMismatch(m)) => assert_eq!(m, "Sample count mismatch: expected 3, got 2"),
        other => panic!("unexpected {:?}", other),
    }
    assert_eq!(w.traces_written(), 0);
    assert_eq!(w.take_output().len(), 3600);
}

#[test]
fn first_trace_fixes_length_when_header_does_not() {
    let mut w = SegyWriter::new();
    w.write_header(&TextHeader::new(), &BinaryHeader::default()).unwrap();
    w.write_trace_raw_f32(&TraceHeader::default(), &bits(&[1.0, 2.0])).unwrap();
    match w.write_trace(&TraceHeader::default(), &bits(&[1.0, 2.0, 3.0])) {
        Err(SegyError::DataMismatch(m)) => assert_eq!(m, "Sample count mismatch: expected 2, got 3"),
        other => panic!("unexpected {:?}", other),
    }
    assert_eq!(w.traces_written(), 1);
}

#[test]
fn draining_the_output_loses_nothing() {
    let mut bin = BinaryHeader::default();
    bin.samples_per_trace = 2;
    let mut whole = SegyWriter::new();
    whole.write_header(&TextHeader::new(), &bin).unwrap();
    whole.write_trace(&TraceHeader::default(), &bits(&[1.0, 2.0])).unwrap();
    let whole = whole.finish().unwrap();

    let mut w = SegyWriter::new();
    w.write_header(&TextHeader::new(), &bin).unwrap();
    let mut pieces = w.take_output();
    assert_eq!(pieces.len(), 3600);
    w.write_trace(&TraceHeader::default(), &bits(&[1.0, 2.0])).unwrap();
    pieces.extend(w.finish().unwrap());
    assert_eq!(pieces, whole);
}
