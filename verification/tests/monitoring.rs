use segy_core::cli::{parse_revision, SimpleProgress};
use segy_core::dataset::parse_time_from_filename;
use segy_core::header::SegyRevision;
use segy_core::monitor::{
    duration_group, late_file_name, Arrival, MonitorOptions, MonitorState, OutputMode, Taken,
};
use segy_core::time::UtcTime;
use std::path::PathBuf;

fn at(stem: &str) -> UtcTime {
    parse_time_from_filename(stem).unwrap()
}

#[test]
fn monitor_defaults() {
    let o = MonitorOptions::default();
    assert_eq!(o.root_dir, "");
    assert_eq!(o.output_dir, "./output");
    assert_eq!(o.file_template, "{prefix}_{YYYY}{MM}{DD}_{hh}{mm}");
    assert!(matches!(o.output_mode, OutputMode::PerMinute));
    assert_eq!((o.wait_window_secs, o.poll_interval_secs), (60, 10));
    assert!(!o.ignore_late && o.backfill && o.use_gps_coords);
    assert_eq!(o.revision, SegyRevision::Rev2);
}

#[test]
fn arrivals_join_their_minute() {
    let mut st = MonitorState::new();
    let t0 = at("2026-06-28_23_59-A");
    let t1 = at("2026-06-29_00_00-A");
    assert_eq!(
        st.arrive(t1, "B".to_string(), PathBuf::from("b1")),
        Arrival::Buffered { new_device: true }
    );
    assert_eq!(
        st.arrive(t0, "A".to_string(), PathBuf::from("a0")),
        Arrival::Buffered { new_device: true }
    );
    assert_eq!(
        st.arrive(t0, "A".to_string(), PathBuf::from("a0-again")),
        Arrival::Buffered { new_device: false }
    );
    assert_eq!(st.devices, vec!["A", "B"]);
    assert_eq!(st.buffer.len(), 2);
    assert_eq!(st.buffer[0].time.timestamp(), t0.timestamp());
    assert_eq!(st.buffer[0].path_of("A"), Some(&PathBuf::from("a0-again")));
}

#[test]
fn ready_minutes_wait_for_the_window() {
    let mut st = MonitorState::new();
    let t0 = at("2026-06-28_23_59-A");
    let t1 = at("2026-06-29_00_00-A");
    st.arrive(t0, "A".to_string(), PathBuf::from("a0"));
    st.arrive(t1, "A".to_string(), PathBuf::from("a1"));
    let base = t0.timestamp();
    assert_eq!(st.ready_times(base + 120, 60).len(), 0);
    let r = st.ready_times(base + 121, 60);
    assert_eq!(r.len(), 1);
    assert_eq!(r[0].timestamp(), base);
    assert_eq!(st.ready_times(base + 1000, 60).len(), 2);
}

#[test]
fn written_minutes_make_late_arrivals() {
    let mut st = MonitorState::new();
    let t0 = at("2026-06-28_23_59-A");
    st.arrive(t0, "A".to_string(), PathBuf::from("a0"));
    let s = st.take_slice(t0.timestamp()).unwrap();
    assert_eq!(s.path_of("A"), Some(&PathBuf::from("a0")));
    assert!(st.take_slice(t0.timestamp()).is_none());
    st.restore_slice(s);
    assert_eq!(st.buffer.len(), 1);
    st.record_file(&[t0.timestamp()]);
    assert_eq!(st.generated, 1);
    assert!(st.buffer.is_empty());
    assert!(st.is_flushed(t0.timestamp()));
    assert_eq!(st.arrive(t0, "B".to_string(), PathBuf::from("late")), Arrival::Late);
    assert!(st.buffer.is_empty());
    assert_eq!(st.devices, vec!["A"]);
    st.mark_flushed(t0.timestamp());
    assert_eq!(st.flushed.len(), 1);
}

#[test]
fn duration_groups_align_to_their_length() {
    let a = at("2026-06-29_00_01-A");
    let b = at("2026-06-29_00_04-A");
    let c = at("2026-06-29_00_05-A");
    let start = a.timestamp() - 60;
    let ready = vec![b, c, a];
    assert!(duration_group(&ready, 5, start + 300 + 30 - 1, 30).is_none());
    let (g, m) = duration_group(&ready, 5, start + 300 + 30, 30).unwrap();
    assert_eq!(g.timestamp(), start);
    let got: Vec<i64> = m.iter().map(|t| t.timestamp()).collect();
    assert_eq!(got, vec![b.timestamp(), a.timestamp()]);
    assert!(duration_group(&[], 5, i64::MAX, 0).is_none());
}

#[test]
fn duration_group_before_the_epoch_misses_its_minute() {
    let t = UtcTime::from_timestamp(-30).unwrap();
    assert!(duration_group(&[t], 1, 10_000, 0).is_none());
}

#[test]
fn late_recording_names() {
    let t = at("2026-06-28_23_59-A");
    assert_eq!(late_file_name("microseismic", &t, "24002"), "microseismic_LATE_20260628_2359_24002.segy");
}

#[test]
fn revisions_on_the_command_line() {
    assert_eq!(parse_revision("rev0"), Ok(SegyRevision::Rev0));
    assert_eq!(parse_revision("REV1"), Ok(SegyRevision::Rev1));
    assert_eq!(parse_revision("Rev2"), Ok(SegyRevision::Rev2));
    assert_eq!(parse_revision("2"), Ok(SegyRevision::Rev2));
    assert_eq!(parse_revision("0"), Ok(SegyRevision::Rev0));
    assert_eq!(
        parse_revision("rev3"),
        Err("Unknown revision: rev3. Use rev0, rev1, or rev2".to_string())
    );
    assert!(parse_revision(" rev1").is_err());
}

#[test]
fn progress_redraws_every_tenth() {
    let mut p = SimpleProgress::new(100);
    assert!(!p.update(5));
    assert!(p.update(10));
    assert_eq!(p.last_print, 10);
    assert!(!p.update(19));
    assert!(p.update(20));
    assert!(p.update(100));
    let mut p = SimpleProgress::new(0);
    assert!(p.update(0));
    let mut p = SimpleProgress::new(5);
    assert!(p.update(1));
}

#[test]
fn written_group_makes_its_whole_window_late() {
    let mut st = MonitorState::new();
    let a = at("2026-06-29_00_01-A");
    let b = at("2026-06-29_00_03-A");
    st.arrive(a, "A".to_string(), PathBuf::from("a"));
    let start = a.timestamp() - 60;
    st.record_group(start, 5, &[a.timestamp()]);
    assert_eq!(st.generated, 1);
    assert!(st.buffer.is_empty());
    assert!(st.is_flushed(b.timestamp()));
    assert!(!st.minute_written(b.timestamp()));
    assert_eq!(st.arrive(b, "A".to_string(), PathBuf::from("b")), Arrival::Late);
    assert!(st.buffer.is_empty());
    let next = at("2026-06-29_00_05-A");
    assert_eq!(
        st.arrive(next, "A".to_string(), PathBuf::from("c")),
        Arrival::Buffered { new_device: false }
    );
}

fn found(key: &str, t: UtcTime, dev: &str) -> (String, UtcTime, String, PathBuf) {
    (key.to_string(), t, dev.to_string(), PathBuf::from(key))
}

#[test]
fn each_path_is_taken_once() {
    let mut st = MonitorState::new();
    let t0 = at("2026-06-28_23_59-A");
    assert_eq!(
        st.take_in("d/A/x.txt".to_string(), t0, "A".to_string(), PathBuf::from("d/A/x.txt"), false),
        Taken::Buffered { new_device: true }
    );
    assert_eq!(
        st.take_in("d/A/x.txt".to_string(), t0, "A".to_string(), PathBuf::from("d/A/x.txt"), false),
        Taken::Seen
    );
    assert_eq!(st.status(), (1, 0, 1));
    let got = st.take_all(
        vec![found("d/B/y.txt", t0, "B"), found("d/A/x.txt", t0, "A"), found("d/A/z.txt", t0, "A")],
        false,
    );
    assert_eq!(got, vec![Taken::Buffered { new_device: true }, Taken::Seen, Taken::Buffered { new_device: false }]);
    assert_eq!(st.processed, 3);
    assert_eq!(st.seen, vec!["d/A/x.txt", "d/B/y.txt", "d/A/z.txt"]);
    assert_eq!(st.buffer[0].path_of("A"), Some(&PathBuf::from("d/A/z.txt")));
}

#[test]
fn late_recordings_are_warned_or_saved() {
    let mut st = MonitorState::new();
    let t0 = at("2026-06-28_23_59-A");
    st.take_in("a0".to_string(), t0, "A".to_string(), PathBuf::from("a0"), true);
    st.record_file(&[t0.timestamp()]);
    let got = st.take_all(vec![found("late1", t0, "B")], true);
    assert_eq!(got, vec![Taken::Warned]);
    let got = st.take_all(vec![found("late2", t0, "B")], false);
    assert_eq!(got, vec![Taken::Saved]);
    assert!(st.buffer.is_empty());
    assert_eq!(st.devices, vec!["A"]);
    assert_eq!(st.status(), (3, 1, 0));
}

#[test]
fn backfill_chooses_whether_existing_files_are_taken() {
    let t0 = at("2026-06-28_23_59-A");
    let mut st = MonitorState::new();
    st.start(vec!["old1".to_string(), "old2".to_string(), "old1".to_string()], false);
    assert_eq!(st.processed, 2);
    assert_eq!(st.take_all(vec![found("old1", t0, "A"), found("new", t0, "A")], false),
        vec![Taken::Seen, Taken::Buffered { new_device: true }]);
    let mut st = MonitorState::new();
    st.start(vec!["old1".to_string()], true);
    assert_eq!(st.processed, 0);
    assert_eq!(st.take_all(vec![found("old1", t0, "A")], false), vec![Taken::Buffered { new_device: true }]);
}

#[test]
fn a_failed_write_puts_the_minute_back() {
    let mut st = MonitorState::new();
    let t0 = at("2026-06-28_23_59-A");
    st.arrive(t0, "A".to_string(), PathBuf::from("a0"));
    let s = st.take_slice(t0.timestamp()).unwrap();
    assert!(!st.is_waiting(t0.timestamp()));
    st.settle_minute(s, false);
    assert!(st.is_waiting(t0.timestamp()));
    assert_eq!(st.generated, 0);
    let s = st.take_slice(t0.timestamp()).unwrap();
    st.settle_minute(s, true);
    assert_eq!(st.generated, 1);
    assert!(!st.is_waiting(t0.timestamp()));
    assert!(st.minute_written(t0.timestamp()));
}

#[test]
fn polls_write_what_is_due() {
    let mut st = MonitorState::new();
    let a = at("2026-06-29_00_01-A");
    let b = at("2026-06-29_00_02-A");
    let c = at("2026-06-29_00_06-A");
    for t in [a, b, c] {
        st.arrive(t, "A".to_string(), PathBuf::from("x"));
    }
    let base = a.timestamp();
    // one file per minute: each ready minute on its own
    let plan = st.due_files(OutputMode::PerMinute, base + 181, 60);
    let got: Vec<(i64, Vec<i64>)> = plan.iter().map(|(t, m)| (t.timestamp(), m.clone())).collect();
    assert_eq!(got, vec![(a.timestamp(), vec![a.timestamp()]), (b.timestamp(), vec![b.timestamp()])]);
    assert!(st.due_files(OutputMode::PerMinute, base + 120, 60).is_empty());
    // groups of five minutes: due once the group and the window are over
    let start = base - 60;
    assert!(st.due_files(OutputMode::Duration(5), start + 300 + 60 - 1, 60).is_empty());
    let plan = st.due_files(OutputMode::Duration(5), start + 300 + 60, 60);
    assert_eq!(plan.len(), 1);
    assert_eq!(plan[0].0.timestamp(), start);
    assert_eq!(plan[0].1, vec![a.timestamp(), b.timestamp()]);
}

#[test]
fn stopping_writes_every_waiting_minute() {
    let mut st = MonitorState::new();
    let a = at("2026-06-29_00_01-A");
    let b = at("2026-06-29_00_02-A");
    st.arrive(b, "A".to_string(), PathBuf::from("b"));
    st.arrive(a, "A".to_string(), PathBuf::from("a"));
    let plan = st.stop_plan(OutputMode::PerMinute);
    let got: Vec<(i64, Vec<i64>)> = plan.iter().map(|(t, m)| (t.timestamp(), m.clone())).collect();
    assert_eq!(got, vec![(a.timestamp(), vec![a.timestamp()]), (b.timestamp(), vec![b.timestamp()])]);
    let plan = st.stop_plan(OutputMode::Duration(10));
    assert_eq!(plan.len(), 1);
    assert_eq!(plan[0].0.timestamp(), a.timestamp());
    assert_eq!(plan[0].1, vec![a.timestamp(), b.timestamp()]);
    assert_eq!(st.status(), (0, 0, 2));
    assert_eq!(st.stop_status(), (0, 0, 0));
    assert!(MonitorState::new().stop_plan(OutputMode::Duration(10)).is_empty());
}

#[test]
fn written_group_stays_closed_after_later_files() {
    let mut st = MonitorState::new();
    let a = at("2026-06-29_00_01-A");
    let late = at("2026-06-29_00_03-A");
    let later = at("2026-06-29_00_07-A");
    st.take_all(vec![found("a", a, "A"), found("l7", later, "A")], true);
    st.record_group(a.timestamp() - 60, 5, &[a.timestamp()]);
    st.record_group(later.timestamp() - 120, 5, &[later.timestamp()]);
    assert_eq!(st.take_all(vec![found("l3", late, "A")], true), vec![Taken::Warned]);
    assert!(st.buffer.is_empty());
    assert_eq!(st.generated, 2);
}
