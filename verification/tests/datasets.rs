use segy_core::dataset::{
    date_folder_names, is_padded_date, parse_time_from_filename, sorted_names, DatasetBuilder, FileInfo,
    TimeAlignedDataset,
};
use segy_core::header::{SegyRevision, TextHeader};
use segy_core::synth::{
    build_trace_header, dataset_text_header, first_device_recording, format_file_name,
    group_text_header, minute_text_header, missing_trace_header, number_file_trace,
    number_minute_trace, single_minute_text_header, slice_trace, synthesis_header,
    write_minute_traces, write_slice_traces, Coordinates, SynthesisOptions, TraceSource,
};
use segy_core::filewriter::SliceFileWriter;
use segy_core::trace::TraceHeader;
use segy_core::writer::SegyWriter;
use segy_core::SegyError;
use std::path::PathBuf;

fn file(stem: &str, device: &str, path: &str) -> FileInfo {
    FileInfo {
        path: PathBuf::from(path),
        device_id: device.to_string(),
        date_folder: "2026-01-25".to_string(),
        time: parse_time_from_filename(stem).unwrap(),
    }
}

fn ready_writer(samples: u16) -> SegyWriter {
    let mut w = SegyWriter::new();
    let bin = synthesis_header(SegyRevision::Rev2, samples as usize, 200, 2);
    w.write_header(&TextHeader::new(), &bin).unwrap();
    w
}

#[test]
fn file_names_from_template() {
    let t = parse_time_from_filename("2026-01-25_08_05-24002").unwrap();
    let o = SynthesisOptions::default();
    assert_eq!(
        format_file_name(&o.file_template, &o.file_prefix, Some(t)),
        "microseismic_20260125_0805"
    );
    assert_eq!(format_file_name(&o.file_template, &o.file_prefix, None), "microseismic__");
    assert_eq!(format_file_name("{YY}-{DOY}-{j}-{ss}", "p", Some(t)), "26-025-025-00");
    assert_eq!(format_file_name("", "p", Some(t)), "output");
    assert_eq!(format_file_name("{YYYY}", "p", None), "output");
    assert_eq!(format_file_name("{prefix}{prefix}", "{YYYY}", Some(t)), "20262026");
}

#[test]
fn synthesis_defaults() {
    let o = SynthesisOptions::default();
    assert_eq!(o.output_dir, "./output");
    assert_eq!(o.file_prefix, "microseismic");
    assert_eq!(o.revision, SegyRevision::Rev2);
    assert!(o.use_gps_coords);
    assert!(!o.per_minute_files);
}

#[test]
fn choosing_files() {
    let b = DatasetBuilder::new(PathBuf::from("root"));
    let stem = "2026-01-25_00_00-24002";
    let r = b.choose_file(true, Some("txt"), Some(stem), Some("24002"), Some("2026-01-25"));
    let (dev, date, t) = r.unwrap();
    assert_eq!((dev.as_str(), date.as_str()), ("24002", "2026-01-25"));
    assert_eq!(t.timestamp(), 1_769_299_200);
    assert!(b.choose_file(false, Some("txt"), Some(stem), Some("24002"), None).is_none());
    assert!(b.choose_file(true, Some("csv"), Some(stem), Some("24002"), None).is_none());
    assert!(b.choose_file(true, Some("txt"), Some("GPS_2026"), Some("24002"), None).is_none());
    assert!(b.choose_file(true, Some("txt"), Some(stem), Some(""), None).is_none());
    assert!(b.choose_file(true, Some("txt"), Some("notime-1"), Some("24002"), None).is_none());
    let b = b.with_devices(vec!["24001".to_string()]);
    assert!(b.choose_file(true, Some("txt"), Some(stem), Some("24002"), None).is_none());
    assert!(b.choose_file(true, Some("txt"), Some(stem), Some("24001"), None).is_some());
    // 2026-01-25 is day 739641 of the common era
    let b = DatasetBuilder::new(PathBuf::from("root")).with_date_range(739_641, 739_641);
    assert!(b.choose_file(true, Some("txt"), Some(stem), Some("d"), Some("2026-01-25")).is_some());
    assert!(b.choose_file(true, Some("txt"), Some(stem), Some("d"), Some("2026-01-26")).is_none());
    assert!(b.choose_file(true, Some("txt"), Some(stem), Some("d"), Some("junk")).is_none());
}

#[test]
fn grouping_into_slices() {
    let files = vec![
        file("2026-01-25_00_01-B", "B", "b1"),
        file("2026-01-25_00_00-A", "A", "a0"),
        file("2026-01-25_00_01-A", "A", "a1"),
        file("2026-01-25_00_00-A", "A", "a0-again"),
    ];
    let d = TimeAlignedDataset::from_files(files, 300).unwrap();
    assert_eq!(d.devices, vec!["A", "B"]);
    assert_eq!(d.num_devices(), 2);
    assert_eq!(d.num_time_slices(), 2);
    assert_eq!(d.samples_per_minute, 300);
    let s0 = &d.time_slices[0];
    assert_eq!(s0.path_of("A"), Some(&PathBuf::from("a0-again")));
    assert_eq!(s0.path_of("B"), None);
    let s1 = &d.time_slices[1];
    assert_eq!(s1.path_of("B"), Some(&PathBuf::from("b1")));
    let (a, b) = d.time_range().unwrap();
    assert_eq!(b.timestamp() - a.timestamp(), 60);
}

#[test]
fn empty_dataset_is_refused() {
    match TimeAlignedDataset::from_files(Vec::new(), 10) {
        Err(SegyError::InvalidFormat(m)) => assert_eq!(m, "No valid microseismic data files found"),
        other => panic!("unexpected {:?}", other),
    }
    let b = DatasetBuilder::new(PathBuf::from("r"));
    assert!(b.build(Vec::new(), 5).is_err());
}

#[test]
fn builder_trace_length() {
    let b = DatasetBuilder::new(PathBuf::from("r"));
    let d = b.build(vec![file("2026-01-25_00_00-A", "A", "a")], 7).unwrap();
    assert_eq!(d.samples_per_minute, 7);
    let b = DatasetBuilder::new(PathBuf::from("r")).with_samples_per_minute(300_000);
    let d = b.build(vec![file("2026-01-25_00_00-A", "A", "a")], 7).unwrap();
    assert_eq!(d.samples_per_minute, 300_000);
}

#[test]
fn folder_names() {
    let names = vec!["b".to_string(), "a".to_string(), "b".to_string(), "C".to_string()];
    assert_eq!(sorted_names(names), vec!["C", "a", "b"]);
    let dates = vec![
        "2026-01-26".to_string(),
        "notes".to_string(),
        "2026-01-25".to_string(),
        "2026-02-30".to_string(),
    ];
    assert_eq!(date_folder_names(dates), vec!["2026-01-25", "2026-01-26"]);
    let dates = vec![
        "2026-10-01".to_string(),
        "2026-2-01".to_string(),
        "2026-02-01".to_string(),
        "2025-12-31".to_string(),
    ];
    assert_eq!(date_folder_names(dates), vec!["2025-12-31", "2026-02-01", "2026-10-01"]);
    assert!(is_padded_date("2026-02-01"));
    assert!(!is_padded_date("2026-2-01"));
}

#[test]
fn trace_headers() {
    let t = parse_time_from_filename("2026-01-25_00_00-24002").unwrap();
    let own = Coordinates { x: 1, y: 2, elevation: 3 };
    let gps = Coordinates { x: 10, y: 20, elevation: 30 };
    let h = build_trace_header(&t, own, Some(gps), true);
    assert_eq!((h.trace_id_code, h.data_use, h.coordinate_units), (1, 1, 1));
    assert_eq!((h.scalar_for_coordinates, h.scalar_for_elevations), (-1000, -10));
    assert_eq!((h.group_x, h.source_y, h.receiver_group_elevation), (10, 20, 30));
    assert_eq!((h.year, h.day_of_year, h.hour), (2026, 25, 0));
    let h = build_trace_header(&t, own, Some(gps), false);
    assert_eq!((h.group_x, h.source_y, h.surface_elevation_at_source), (1, 2, 3));
    let m = missing_trace_header(70_000, Some(gps), true);
    assert_eq!((m.trace_id_code, m.number_of_samples, m.data_use), (0, 0, 0));
    assert_eq!((m.scalar_for_coordinates, m.group_x, m.group_y, m.source_x), (-1000, 10, 20, 0));
    let m = missing_trace_header(300, None, true);
    assert_eq!((m.number_of_samples, m.scalar_for_coordinates), (300, 0));
}

#[test]
fn traces_are_fitted_to_length() {
    let t = parse_time_from_filename("2026-01-25_00_00-24002").unwrap();
    let own = Coordinates { x: 1, y: 2, elevation: 3 };
    let src = TraceSource { start_time: t, coordinates: own, samples: vec![1, 2, 3, 4] };
    let (h, s) = slice_trace(Some(src), 2, None, true);
    assert_eq!(s, vec![1, 2]);
    assert_eq!(h.number_of_samples, 4);
    let src = TraceSource { start_time: t, coordinates: own, samples: vec![9] };
    let (_, s) = slice_trace(Some(src), 3, None, true);
    assert_eq!(s, vec![9, 0, 0]);
    let (h, s) = slice_trace(None, 2, None, true);
    assert_eq!(s, vec![0, 0]);
    assert_eq!(h.trace_id_code, 0);
}

#[test]
fn binary_header_of_synthesis() {
    let h = synthesis_header(SegyRevision::Rev1, 300_000, 200, 70_000);
    assert_eq!((h.samples_per_trace, h.samples_per_trace_original), (0, 0));
    assert_eq!((h.sample_interval, h.sample_interval_original), (200, 200));
    assert_eq!(h.traces_per_ensemble, 70_000u32 as u16);
    assert_eq!((h.segy_revision, h.data_sample_format), (0x0100, 5));
    let h = synthesis_header(SegyRevision::Rev0, 300, 200, 2);
    assert_eq!((h.samples_per_trace, h.fixed_length_trace), (300, 0));
}

#[test]
fn trace_numbering() {
    let mut h = TraceHeader::default();
    number_minute_trace(&mut h, 4);
    assert_eq!(
        (h.trace_sequence_file, h.trace_sequence_line, h.ensemble_number, h.trace_number_within_ensemble),
        (5, 5, 1, 5)
    );
    let mut h = TraceHeader::default();
    number_file_trace(&mut h, 17, 2);
    assert_eq!((h.trace_sequence_file, h.trace_sequence_line, h.ensemble_number), (17, 17, 3));
}

#[test]
fn text_headers_of_files() {
    let t = parse_time_from_filename("2026-01-25_00_00-24002").unwrap();
    let u = parse_time_from_filename("2026-01-25_00_09-24002").unwrap();
    let h = minute_text_header(12, "Sample rate: 5000.00 Hz", &t);
    assert!(h.use_utf8);
    assert_eq!(h.lines[0], "C 1 SEG-Y Rev 2.0 - Microseismic Monitoring Data");
    assert_eq!(h.lines[1], "C 2 Stations: 12");
    assert_eq!(h.lines[2], "C 3 Sample rate: 5000.00 Hz");
    assert_eq!(h.lines[3], "C 4 Time: 2026-01-25 00:00:00 UTC");
    assert_eq!(h.lines[4], "C 5 ");
    let h = dataset_text_header(2, "r", Some((t, u)), 20);
    assert_eq!(h.lines[3], "C 4 Start: 2026-01-25 00:00:00 UTC");
    assert_eq!(h.lines[4], "C 5 End:   2026-01-25 00:09:00 UTC");
    assert_eq!(h.lines[5], "C 6 Total traces: 20");
    let h = dataset_text_header(2, "r", None, 0);
    assert_eq!(h.lines[3], "C 4 ");
    assert_eq!(h.lines[5], "C 6 Total traces: 0");
    let h = group_text_header(2, "r", Some((t, u)), 10, 20);
    assert_eq!(h.lines[5], "C 6 Time slices: 10, Total traces: 20");
    let h = single_minute_text_header(3, "Sample rate: 1.00 Hz");
    assert_eq!(h.lines[0], "C 1 SEG-Y Rev 2.0 - Microseismic Data");
    assert_eq!(h.lines[3], "C 4 ");
}

#[test]
fn first_device_of_a_minute() {
    let d = TimeAlignedDataset::from_files(vec![file("2026-01-25_00_00-B", "B", "b")], 1).unwrap();
    let slice = &d.time_slices[0];
    match first_device_recording(&Vec::new(), slice) {
        Err(SegyError::InvalidFormat(m)) => assert_eq!(m, "No devices"),
        other => panic!("unexpected {:?}", other),
    }
    match first_device_recording(&vec!["A".to_string(), "B".to_string()], slice) {
        Err(SegyError::InvalidFormat(m)) => assert_eq!(m, "No data for first device"),
        other => panic!("unexpected {:?}", other),
    }
    assert_eq!(first_device_recording(&vec!["B".to_string()], slice).unwrap(), &PathBuf::from("b"));
}

#[test]
fn slices_written_with_numbering() {
    let mut w = ready_writer(2);
    let traces = vec![(TraceHeader::default(), vec![1, 2]), (TraceHeader::default(), vec![3, 4])];
    assert_eq!(write_slice_traces(&mut w, &traces, 5, 1).unwrap(), 7);
    assert_eq!(w.traces_written(), 2);
    let bytes = w.take_output();
    assert_eq!(bytes.len(), 3600 + 2 * (240 + 8));
    let second = 3600 + 248;
    assert_eq!(&bytes[second..second + 8], &[0, 0, 0, 7, 0, 0, 0, 7]);
    assert_eq!(&bytes[second + 20..second + 24], &[0, 0, 0, 2]);
}

#[test]
fn minute_written_with_numbering() {
    let mut w = ready_writer(1);
    let traces = vec![(TraceHeader::default(), vec![1]), (TraceHeader::default(), vec![2])];
    write_minute_traces(&mut w, &traces).unwrap();
    let bytes = w.take_output();
    let second = 3600 + 244;
    assert_eq!(&bytes[second + 20..second + 28], &[0, 0, 0, 1, 0, 0, 0, 2]);
}

#[test]
fn writing_stops_at_first_refused_trace() {
    let mut w = ready_writer(2);
    let traces = vec![
        (TraceHeader::default(), vec![1, 2]),
        (TraceHeader::default(), vec![1]),
        (TraceHeader::default(), vec![1, 2]),
    ];
    match write_slice_traces(&mut w, &traces, 0, 0) {
        Err(SegyError::DataMismatch(m)) => assert_eq!(m, "Sample count mismatch: expected 2, got 1"),
        other => panic!("unexpected {:?}", other),
    }
    assert_eq!(w.traces_written(), 1);
}

#[test]
fn slices_name_each_device_once() {
    let d = TimeAlignedDataset::from_files(vec![file("2026-01-25_00_00-B", "B", "b")], 1).unwrap();
    assert!(d.time_slices[0].devices_unique());
}

#[test]
fn a_refused_trace_keeps_the_ones_before() {
    let mut w = ready_writer(2);
    let traces = vec![(TraceHeader::default(), vec![1, 2]), (TraceHeader::default(), vec![1])];
    assert!(write_minute_traces(&mut w, &traces).is_err());
    let bytes = w.take_output();
    assert_eq!(bytes.len(), 3600 + 240 + 8);
    assert_eq!(&bytes[3600 + 240..], &[0, 0, 0, 1, 0, 0, 0, 2]);
}

#[test]
fn file_writer_numbers_across_slices() {
    let fw = SliceFileWriter::new(ready_writer(1));
    assert_eq!((fw.next_trace(), fw.slices_written()), (0, 0));
    let two = vec![(TraceHeader::default(), vec![1]), (TraceHeader::default(), vec![2])];
    let fw = fw.write_slice(&two).unwrap();
    let mut fw = fw.write_slice(&two).unwrap();
    assert_eq!((fw.next_trace(), fw.slices_written(), fw.traces_written()), (4, 2, 4));
    let first = fw.take_output();
    let fw = fw.write_slice(&vec![(TraceHeader::default(), vec![3])]).unwrap();
    let rest = fw.finish().unwrap();
    assert_eq!(first.len() + rest.len(), 3600 + 5 * 244);
    let all: Vec<u8> = first.iter().chain(rest.iter()).copied().collect();
    let fourth = 3600 + 3 * 244;
    // sequence numbers 4 and 4, in the ensemble of the second slice
    assert_eq!(&all[fourth..fourth + 8], &[0, 0, 0, 4, 0, 0, 0, 4]);
    assert_eq!(&all[fourth + 20..fourth + 24], &[0, 0, 0, 2]);
    let fifth = 3600 + 4 * 244;
    assert_eq!(&all[fifth..fifth + 8], &[0, 0, 0, 5, 0, 0, 0, 5]);
    assert_eq!(&all[fifth + 20..fifth + 24], &[0, 0, 0, 3]);
    assert_eq!(&all[fifth + 240..], &[0, 0, 0, 3]);
}

#[test]
fn file_writer_stops_at_a_refused_trace() {
    let fw = SliceFileWriter::new(ready_writer(2));
    match fw.write_slice(&vec![(TraceHeader::default(), vec![1])]) {
        Err(SegyError::DataMismatch(m)) => assert_eq!(m, "Sample count mismatch: expected 2, got 1"),
        _ => panic!("expected a mismatch"),
    }
}
