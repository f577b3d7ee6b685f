use crate::error::SegyError;
use crate::dataset::{slice_map, slice_pairs, TimeSlice};
use crate::assoc::keys_unique;
use crate::header::{BinaryHeader, SegyRevision, TextHeader, card_label, revision_code};
use crate::order::strings_view;
use crate::text::{append_chars, chars_of, decimal, push_decimal, replace_all, replace_chars, string_of};
use crate::time::{format_utc, utc_text, CivilTime, UtcTime};
use crate::trace::{wrap16, TraceHeader};
use crate::writer::{mismatch_message, state_after_trace, trace_accepted, SegyWriter, WriterState};
use std::path::PathBuf;
use vstd::prelude::*;

verus! {

/// Station coordinates already scaled for a trace header: easting and
/// northing in millimetres, elevation in decimetres.
#[derive(Debug, Clone, Copy)]
pub struct Coordinates {
    pub x: i32,
    pub y: i32,
    pub elevation: i32,
}

/// The coordinates a trace uses: the GPS table's when asked for and
/// known, else the recording's own.
pub open spec fn chosen_coordinates(own: Coordinates, gps: Option<Coordinates>, use_gps: bool) -> Coordinates {
    match gps {
        Some(g) => if use_gps { g } else { own },
        None => own,
    }
}

/// The header of a recorded trace: a seismic trace (code 1) of one summed
/// record, recorded in UTC, its time taken from the recording, positions in
/// millimetres (scalar -1000) and elevations in decimetres (scalar -10).
pub open spec fn recorded_header(time: UtcTime, c: Coordinates) -> TraceHeader {
    TraceHeader {
        trace_id_code: 1,
        time_basis_code: 1,
        data_use: 1,
        number_of_horizontally_summed: 1,
        number_of_vertically_summed: 1,
        coordinate_units: 1,
        scalar_for_coordinates: -1000i16,
        scalar_for_elevations: -10i16,
        group_x: c.x,
        group_y: c.y,
        source_x: c.x,
        source_y: c.y,
        receiver_group_elevation: c.elevation,
        surface_elevation_at_source: c.elevation,
        year: wrap16(time@.year),
        day_of_year: wrap16(time@.ordinal),
        hour: wrap16(time@.hour),
        minute: wrap16(time@.minute),
        second: wrap16(time@.second),
        ..TraceHeader::zeroed()
    }
}

/// Builds the header of a recorded trace from its start time and
/// coordinates.
pub fn build_trace_header(time: &UtcTime, own: Coordinates, gps: Option<Coordinates>, use_gps: bool) -> (h: TraceHeader)
    ensures
        h == recorded_header(*time, chosen_coordinates(own, gps, use_gps)),
{
    let mut h = TraceHeader::default();
    h.trace_id_code = 1;
    h.set_time(time);
    h.time_basis_code = 1;
    h.data_use = 1;
    h.number_of_horizontally_summed = 1;
    h.number_of_vertically_summed = 1;
    h.coordinate_units = 1;
    let c = match gps {
        Some(g) => if use_gps { g } else { own },
        None => own,
    };
    h.scalar_for_coordinates = -1000;
    h.scalar_for_elevations = -10;
    h.group_x = c.x;
    h.group_y = c.y;
    h.source_x = c.x;
    h.source_y = c.y;
    h.receiver_group_elevation = c.elevation;
    h.surface_elevation_at_source = c.elevation;
    h
}

/// A recorded trace carries its station's coordinates field by field, and
/// its recording's start time: the coordinates are the GPS table's when
/// asked for and the table knows the station, else the recording's own;
/// the easting goes to both x fields, the northing to both y fields and the
/// elevation to both elevation fields; the year, day of the year, hour,
/// minute and second are those of the start time (cut to 16 bits).
pub proof fn lemma_recorded_header_fields(time: UtcTime, own: Coordinates, gps: Option<Coordinates>, use_gps: bool)
    ensures
        ({
            let h = recorded_header(time, chosen_coordinates(own, gps, use_gps));
            let c = if use_gps && gps is Some { gps->0 } else { own };
            &&& h.group_x == c.x && h.source_x == c.x
            &&& h.group_y == c.y && h.source_y == c.y
            &&& h.receiver_group_elevation == c.elevation && h.surface_elevation_at_source == c.elevation
            &&& h.year as int == time@.year % 65536
            &&& h.day_of_year as int == time@.ordinal % 65536
            &&& h.hour as int == time@.hour % 65536
            &&& h.minute as int == time@.minute % 65536
            &&& h.second as int == time@.second % 65536
            &&& h.trace_id_code == 1
        }),
{
}

/// A dead trace (a device without a recording in the minute) is marked
/// dead, declares the trace length when it fits in 16 bits, and carries the
/// station's GPS position when asked for and known: easting in `group_x`,
/// northing in `group_y`; otherwise no position.
pub proof fn lemma_absent_header_fields(samples: int, gps: Option<Coordinates>, use_gps: bool)
    ensures
        ({
            let h = absent_header(samples, gps, use_gps);
            &&& h.trace_id_code == 0
            &&& 0 <= samples <= 65535 ==> h.number_of_samples as int == samples
            &&& use_gps && gps is Some ==> h.group_x == gps->0.x && h.group_y == gps->0.y
            &&& !(use_gps && gps is Some) ==> h.group_x == 0 && h.group_y == 0
        }),
{
}

/// A device's trace in a minute is `expected` samples long: with a
/// recording, its samples in order, cut at `expected` or followed by zeros,
/// under a header with the recording's start time and chosen coordinates
/// that declares the recording's own sample count (when it fits in 16
/// bits); without one, zeros under a dead trace's header.
pub proof fn lemma_device_trace_samples(src: Option<TraceSource>, expected: nat, gps: Option<Coordinates>, use_gps: bool, i: int)
    requires
        0 <= i < expected,
    ensures
        ({
            let (h, v) = device_trace(src, expected, gps, use_gps);
            &&& v.len() == expected
            &&& match src {
                Some(d) => {
                    &&& v[i] == (if i < d.samples@.len() { d.samples@[i] } else { 0u32 })
                    &&& d.samples@.len() <= 65535 ==> h.number_of_samples as int == d.samples@.len()
                    &&& h.trace_id_code == 1
                    &&& h.group_x == chosen_coordinates(d.coordinates, gps, use_gps).x
                    &&& h.group_y == chosen_coordinates(d.coordinates, gps, use_gps).y
                    &&& h.hour as int == d.start_time@.hour % 65536
                    &&& h.minute as int == d.start_time@.minute % 65536
                },
                None => v[i] == 0u32 && h.trace_id_code == 0,
            }
        }),
{
}

/// A count as a 16-bit header field: itself when it fits, else 0.
pub open spec fn count16(n: int) -> u16 {
    if n <= 65535 { n as u16 } else { 0 }
}

fn count16_of(n: usize) -> (r: u16)
    ensures
        r == count16(n as int),
{
    if n <= 65535 { n as u16 } else { 0 }
}

/// The header of a device's trace when it has no recording in a minute: a
/// dead trace (code 0), with the station's GPS position when asked for and
/// known.
pub open spec fn absent_header(samples: int, gps: Option<Coordinates>, use_gps: bool) -> TraceHeader {
    let base = TraceHeader { trace_id_code: 0, number_of_samples: count16(samples), data_use: 0, ..TraceHeader::zeroed() };
    match gps {
        Some(g) => if use_gps {
            TraceHeader { scalar_for_coordinates: -1000i16, group_x: g.x, group_y: g.y, ..base }
        } else {
            base
        },
        None => base,
    }
}

/// Builds the header of a device's trace for a minute without recording.
pub fn missing_trace_header(samples: usize, gps: Option<Coordinates>, use_gps: bool) -> (h: TraceHeader)
    ensures
        h == absent_header(samples as int, gps, use_gps),
{
    let mut h = TraceHeader::default();
    h.trace_id_code = 0;
    h.number_of_samples = count16_of(samples);
    h.data_use = 0;
    if use_gps {
        match gps {
            Some(g) => {
                h.scalar_for_coordinates = -1000;
                h.group_x = g.x;
                h.group_y = g.y;
            },
            None => {},
        }
    }
    h
}

/// What a recording contributes to a trace: its start time, coordinates
/// and samples (IEEE-754 single-precision bit patterns).
#[derive(Debug)]
pub struct TraceSource {
    pub start_time: UtcTime,
    pub coordinates: Coordinates,
    pub samples: Vec<u32>,
}

/// `s` cut or padded with zeros (the bits of 0.0) to `n` samples.
pub open spec fn fit_samples(s: Seq<u32>, n: nat) -> Seq<u32> {
    if s.len() >= n {
        s.take(n as int)
    } else {
        s + Seq::new((n - s.len()) as nat, |i: int| 0u32)
    }
}

/// The trace of one device in one minute: from its recording if there is
/// one (the header records the recording's own sample count), else a dead
/// trace of zeros; either way `expected` samples long.
pub open spec fn device_trace(
    src: Option<TraceSource>,
    expected: nat,
    gps: Option<Coordinates>,
    use_gps: bool,
) -> (TraceHeader, Seq<u32>) {
    match src {
        None => (absent_header(expected as int, gps, use_gps), Seq::new(expected, |i: int| 0u32)),
        Some(d) => (
            TraceHeader {
                number_of_samples: count16(d.samples@.len() as int),
                ..recorded_header(d.start_time, chosen_coordinates(d.coordinates, gps, use_gps))
            },
            fit_samples(d.samples@, expected),
        ),
    }
}

/// Builds the trace of one device in one minute.
pub fn slice_trace(src: Option<TraceSource>, expected: usize, gps: Option<Coordinates>, use_gps: bool) -> (r: (
    TraceHeader,
    Vec<u32>,
))
    ensures
        (r.0, r.1@) == device_trace(src, expected as nat, gps, use_gps),
{
    match src {
        None => {
            let h = missing_trace_header(expected, gps, use_gps);
            let mut v: Vec<u32> = Vec::new();
            let mut i: usize = 0;
            while i < expected
                invariant
                    i <= expected,
                    v@ =~= Seq::new(i as nat, |k: int| 0u32),
                decreases expected - i,
            {
                v.push(0u32);
                i = i + 1;
            }
            (h, v)
        },
        Some(d) => {
            let ghost ds = d.samples@;
            let mut h = build_trace_header(&d.start_time, d.coordinates, gps, use_gps);
            h.number_of_samples = count16_of(d.samples.len());
            let mut v: Vec<u32> = Vec::new();
            let mut i: usize = 0;
            let n = d.samples.len();
            while i < expected && i < n
                invariant
                    n == ds.len(),
                    ds == d.samples@,
                    i <= expected,
                    i <= n,
                    v@ =~= ds.take(i as int),
                decreases expected - i,
            {
                v.push(d.samples[i]);
                i = i + 1;
            }
            if i < expected {
                assert(v@ =~= ds + Seq::new(0, |k: int| 0u32));
                while i < expected
                    invariant
                        n == ds.len(),
                        n <= i <= expected,
                        v@ =~= ds + Seq::new((i - n) as nat, |k: int| 0u32),
                    decreases expected - i,
                {
                    v.push(0u32);
                    i = i + 1;
                }
            }
            (h, v)
        },
    }
}

/// The binary header of a synthesized file: the default header declaring
/// `rev`, with the trace length (0 when it exceeds 16 bits), the sample
/// interval in microseconds and the number of devices per ensemble (cut to
/// 16 bits).
pub open spec fn synthesis_binary_header(rev: SegyRevision, samples: int, interval_us: u16, devices: int) -> BinaryHeader {
    BinaryHeader {
        samples_per_trace: count16(samples),
        samples_per_trace_original: count16(samples),
        sample_interval: interval_us,
        sample_interval_original: interval_us,
        traces_per_ensemble: wrap16(devices),
        segy_revision: revision_code(rev),
        fixed_length_trace: if rev == SegyRevision::Rev0 { 0 } else { 1 },
        ..BinaryHeader::initial()
    }
}

/// The binary header of a synthesized file declares its traces: the trace
/// length (when it fits in 16 bits, else 0) as both the sample count and
/// the original one, the sample interval as both intervals, the number of
/// devices (cut to 16 bits) per ensemble, IEEE single-precision samples
/// (code 5), the revision's major number in the high byte of the revision
/// field, and fixed-length traces except in revision 0.
pub proof fn lemma_synthesis_header_fields(rev: SegyRevision, samples: int, interval_us: u16, devices: int)
    requires
        samples >= 0,
        devices >= 0,
    ensures
        ({
            let h = synthesis_binary_header(rev, samples, interval_us, devices);
            &&& samples <= 65535 ==> h.samples_per_trace as int == samples && h.samples_per_trace_original as int == samples
            &&& samples > 65535 ==> h.samples_per_trace == 0 && h.samples_per_trace_original == 0
            &&& h.sample_interval == interval_us && h.sample_interval_original == interval_us
            &&& h.traces_per_ensemble as int == devices % 65536
            &&& h.data_sample_format == 5
            &&& h.segy_revision as int == 256 * (match rev {
                SegyRevision::Rev0 => 0int,
                SegyRevision::Rev1 => 1int,
                SegyRevision::Rev2 => 2int,
            })
            &&& h.fixed_length_trace == (if rev is Rev0 { 0u16 } else { 1u16 })
        }),
{
}

/// Builds the binary header of a synthesized file.
pub fn synthesis_header(rev: SegyRevision, samples: usize, interval_us: u16, devices: usize) -> (h: BinaryHeader)
    ensures
        h == synthesis_binary_header(rev, samples as int, interval_us, devices as int),
{
    let mut h = BinaryHeader::default().with_revision(rev);
    h.samples_per_trace = count16_of(samples);
    h.samples_per_trace_original = count16_of(samples);
    h.sample_interval = interval_us;
    h.sample_interval_original = interval_us;
    h.traces_per_ensemble = (devices % 65536) as u16;
    h
}

/// `i` as a 32-bit signed number, as `i as i32` gives it.
pub open spec fn wrap32(i: int) -> i32 {
    let r = i % 4294967296;
    if r < 2147483648 { r as i32 } else { (r - 4294967296) as i32 }
}

fn wrap32_of(i: usize) -> (r: i32)
    ensures
        r == wrap32(i as int),
{
    let r: u64 = (i as u64) % 4294967296;
    if r < 2147483648 { r as i32 } else { (r as i64 - 4294967296) as i32 }
}

/// Numbers a trace within a one-minute file: the `idx`-th trace (from 0)
/// is trace `idx + 1` of the file, the line and its single ensemble.
pub fn number_minute_trace(h: &mut TraceHeader, idx: usize)
    requires
        idx < usize::MAX,
    ensures
        *final(h) == (TraceHeader {
            trace_sequence_file: wrap32(idx + 1),
            trace_sequence_line: wrap32(idx + 1),
            ensemble_number: 1,
            trace_number_within_ensemble: wrap32(idx + 1),
            ..*old(h)
        }),
{
    let n: i32 = wrap32_of(idx + 1);
    h.trace_sequence_file = n;
    h.trace_sequence_line = n;
    h.ensemble_number = 1;
    h.trace_number_within_ensemble = n;
}

/// Numbers a trace within a file of many minutes: trace `seq` of the file
/// and line, in the ensemble of slice `slice_idx + 1`.
pub fn number_file_trace(h: &mut TraceHeader, seq: i32, slice_idx: usize)
    requires
        slice_idx < usize::MAX,
    ensures
        *final(h) == (TraceHeader {
            trace_sequence_file: seq,
            trace_sequence_line: seq,
            ensemble_number: wrap32(slice_idx + 1),
            ..*old(h)
        }),
{
    let e: i32 = wrap32_of(slice_idx + 1);
    h.trace_sequence_file = seq;
    h.trace_sequence_line = seq;
    h.ensemble_number = e;
}

/// What a time placeholder becomes: the time written with the chrono
/// format `fmt`, or nothing when there is no time.
pub open spec fn placeholder_value(time: Option<UtcTime>, fmt: Seq<char>) -> Seq<char> {
    match time {
        Some(t) => utc_text(t@, fmt),
        None => Seq::empty(),
    }
}

/// A file name made from a template: `{prefix}` becomes the prefix, then
/// `{YYYY}`, `{YY}`, `{MM}`, `{DD}`, `{hh}`, `{mm}`, `{ss}`, `{DOY}` and
/// `{j}`, in this order, become the year, the two-digit year, month, day,
/// hour, minute, second and day of the year (the last two both), or
/// nothing without a time; an empty result becomes `output`.
pub open spec fn file_name_text(template: Seq<char>, prefix: Seq<char>, time: Option<UtcTime>) -> Seq<char> {
    let s0 = replace_all(template, "{prefix}"@, prefix);
    let s1 = replace_all(s0, "{YYYY}"@, placeholder_value(time, "%Y"@));
    let s2 = replace_all(s1, "{YY}"@, placeholder_value(time, "%y"@));
    let s3 = replace_all(s2, "{MM}"@, placeholder_value(time, "%m"@));
    let s4 = replace_all(s3, "{DD}"@, placeholder_value(time, "%d"@));
    let s5 = replace_all(s4, "{hh}"@, placeholder_value(time, "%H"@));
    let s6 = replace_all(s5, "{mm}"@, placeholder_value(time, "%M"@));
    let s7 = replace_all(s6, "{ss}"@, placeholder_value(time, "%S"@));
    let s8 = replace_all(s7, "{DOY}"@, placeholder_value(time, "%j"@));
    let s9 = replace_all(s8, "{j}"@, placeholder_value(time, "%j"@));
    if s9.len() == 0 {
        "output"@
    } else {
        s9
    }
}

fn fill_placeholder(s: Vec<char>, placeholder: &str, fmt: &str, time: Option<UtcTime>) -> (r: Vec<char>)
    requires
        placeholder@.len() > 0,
        crate::time::supported_format(fmt@),
    ensures
        r@ == replace_all(s@, placeholder@, placeholder_value(time, fmt@)),
{
    let p = chars_of(placeholder);
    let value: Vec<char> = match time {
        Some(t) => chars_of(format_utc(&t, fmt).as_str()),
        None => Vec::new(),
    };
    replace_chars(s.as_slice(), p.as_slice(), value.as_slice())
}

/// The name (without extension) of an output file, from the naming
/// template, the prefix and the time of the data it holds.
pub fn format_file_name(template: &str, prefix: &str, time: Option<UtcTime>) -> (name: String)
    ensures
        name@ == file_name_text(template@, prefix@, time),
{
    proof {
        reveal_strlit("{prefix}");
        reveal_strlit("{YYYY}");
        reveal_strlit("{YY}");
        reveal_strlit("{MM}");
        reveal_strlit("{DD}");
        reveal_strlit("{hh}");
        reveal_strlit("{mm}");
        reveal_strlit("{ss}");
        reveal_strlit("{DOY}");
        reveal_strlit("{j}");
    }
    let t = chars_of(template);
    let pf = chars_of(prefix);
    let ph = chars_of("{prefix}");
    let s = replace_chars(t.as_slice(), ph.as_slice(), pf.as_slice());
    let s = fill_placeholder(s, "{YYYY}", "%Y", time);
    let s = fill_placeholder(s, "{YY}", "%y", time);
    let s = fill_placeholder(s, "{MM}", "%m", time);
    let s = fill_placeholder(s, "{DD}", "%d", time);
    let s = fill_placeholder(s, "{hh}", "%H", time);
    let s = fill_placeholder(s, "{mm}", "%M", time);
    let s = fill_placeholder(s, "{ss}", "%S", time);
    let s = fill_placeholder(s, "{DOY}", "%j", time);
    let s = fill_placeholder(s, "{j}", "%j", time);
    if s.len() == 0 {
        "output".to_owned()
    } else {
        string_of(s.as_slice())
    }
}


/// The title on the first line of a synthesized file's text header.
pub open spec fn title_text() -> Seq<char> {
    "SEG-Y Rev 2.0 - Microseismic Monitoring Data"@
}

/// `Stations: {n}`.
pub open spec fn stations_text(n: nat) -> Seq<char> {
    "Stations: "@ + decimal(n)
}

/// `label` followed by the instant `t` as `YYYY-MM-DD hh:mm:ss UTC`.
pub open spec fn time_text(label: Seq<char>, t: CivilTime) -> Seq<char> {
    label + utc_text(t, "%Y-%m-%d %H:%M:%S UTC"@)
}

/// The forty lines of a text header whose first lines carry `texts` after
/// their labels and whose other lines hold only their labels.
pub open spec fn labelled_lines(texts: Seq<Seq<char>>) -> Seq<Seq<char>> {
    Seq::new(
        40,
        |i: int|
            if i < texts.len() {
                card_label((i + 1) as nat) + texts[i]
            } else {
                card_label((i + 1) as nat)
            },
    )
}

/// A UTF-8 text header whose lines from the first on carry `texts`.
fn text_header_of(texts: &Vec<String>) -> (h: TextHeader)
    requires
        texts@.len() <= 40,
    ensures
        h.wf(),
        h.use_utf8,
        strings_view(h.lines@) == labelled_lines(strings_view(texts@)),
{
    let mut h = TextHeader::new();
    h.use_utf8 = true;
    let ghost tv = strings_view(texts@);
    let mut i: usize = 0;
    proof {
        assert forall|k: int| 0 <= k < 40 implies #[trigger] strings_view(h.lines@)[k] == labelled_lines(tv.take(0))[k] by {
            assert(h.lines@[k]@ == card_label((k + 1) as nat));
        }
        assert(strings_view(h.lines@) =~= labelled_lines(tv.take(0)));
    }
    while i < texts.len()
        invariant
            i <= texts@.len() <= 40,
            tv == strings_view(texts@),
            h.wf(),
            h.use_utf8,
            strings_view(h.lines@) == labelled_lines(tv.take(i as int)),
        decreases texts.len() - i,
    {
        let ghost before = h.lines@;
        h.set_line(i + 1, texts[i].as_str());
        proof {
            assert forall|k: int| 0 <= k < 40 implies #[trigger] strings_view(h.lines@)[k] == labelled_lines(tv.take(i + 1))[k] by {
                if k != i {
                    assert(h.lines@[k] == before[k]);
                    assert(strings_view(before)[k] == labelled_lines(tv.take(i as int))[k]);
                }
            }
            assert(strings_view(h.lines@) =~= labelled_lines(tv.take(i + 1)));
        }
        i = i + 1;
    }
    proof {
        assert(tv.take(tv.len() as int) =~= tv);
    }
    h
}

/// The title line.
fn push_title(v: &mut Vec<String>)
    ensures
        strings_view(final(v)@) == strings_view(old(v)@).push(title_text()),
{
    let ghost o = strings_view(v@);
    v.push("SEG-Y Rev 2.0 - Microseismic Monitoring Data".to_owned());
    proof {
        reveal_strlit("SEG-Y Rev 2.0 - Microseismic Monitoring Data");
        assert(strings_view(v@) =~= o.push(title_text()));
    }
}

fn push_line(v: &mut Vec<String>, line: Vec<char>)
    ensures
        strings_view(final(v)@) == strings_view(old(v)@).push(line@),
{
    let ghost o = strings_view(v@);
    v.push(string_of(line.as_slice()));
    assert(strings_view(v@) =~= o.push(line@));
}

fn labelled_number(label: &str, n: u64) -> (r: Vec<char>)
    ensures
        r@ == label@ + decimal(n as nat),
{
    let mut r = chars_of(label);
    push_decimal(&mut r, n);
    r
}

fn labelled_time(label: &str, t: &UtcTime) -> (r: Vec<char>)
    ensures
        r@ == time_text(label@, t@),
{
    proof {
        reveal_strlit("%Y-%m-%d %H:%M:%S UTC");
    }
    let mut r = chars_of(label);
    let f = format_utc(t, "%Y-%m-%d %H:%M:%S UTC");
    append_chars(&mut r, chars_of(f.as_str()).as_slice());
    r
}

/// The text header of a one-minute file: the title, `Stations: {n}`, the
/// sample-rate line `rate_line` and `Time: {time}`.
pub fn minute_text_header(stations: usize, rate_line: &str, time: &UtcTime) -> (h: TextHeader)
    ensures
        h.wf(),
        h.use_utf8,
        strings_view(h.lines@) == labelled_lines(
            seq![title_text(), stations_text(stations as nat), rate_line@, time_text("Time: "@, time@)],
        ),
{
    proof {
        reveal_strlit("Stations: ");
        reveal_strlit("Time: ");
    }
    let mut v: Vec<String> = Vec::new();
    push_title(&mut v);
    push_line(&mut v, labelled_number("Stations: ", stations as u64));
    push_line(&mut v, chars_of(rate_line));
    push_line(&mut v, labelled_time("Time: ", time));
    proof {
        assert(strings_view(v@) =~= seq![title_text(), stations_text(stations as nat), rate_line@, time_text("Time: "@, time@)]);
    }
    text_header_of(&v)
}

/// The lines 4 and 5 of a header that spans several minutes: the first
/// and the last, when there are any.
pub open spec fn span_texts(range: Option<(UtcTime, UtcTime)>) -> Seq<Seq<char>> {
    match range {
        Some((a, b)) => seq![time_text("Start: "@, a@), time_text("End:   "@, b@)],
        None => seq![Seq::<char>::empty(), Seq::<char>::empty()],
    }
}

fn push_span(v: &mut Vec<String>, range: Option<(UtcTime, UtcTime)>)
    ensures
        strings_view(final(v)@) == strings_view(old(v)@) + span_texts(range),
{
    proof {
        reveal_strlit("Start: ");
        reveal_strlit("End:   ");
    }
    let ghost o = strings_view(v@);
    match range {
        Some((a, b)) => {
            push_line(v, labelled_time("Start: ", &a));
            push_line(v, labelled_time("End:   ", &b));
        },
        None => {
            push_line(v, Vec::new());
            push_line(v, Vec::new());
        },
    }
    assert(strings_view(v@) =~= o + span_texts(range));
}

/// `Total traces: {n}`.
pub open spec fn total_text(n: nat) -> Seq<char> {
    "Total traces: "@ + decimal(n)
}

/// The text header of a file holding a whole dataset: the title,
/// `Stations: {n}`, the sample-rate line `rate_line`, the first and last
/// minute when there are any, and `Total traces: {total}`.
pub fn dataset_text_header(stations: usize, rate_line: &str, range: Option<(UtcTime, UtcTime)>, total: u64) -> (h: TextHeader)
    ensures
        h.wf(),
        h.use_utf8,
        strings_view(h.lines@) == labelled_lines(
            seq![title_text(), stations_text(stations as nat), rate_line@] + span_texts(range) + seq![total_text(total as nat)],
        ),
{
    proof {
        reveal_strlit("Stations: ");
        reveal_strlit("Total traces: ");
    }
    let mut v: Vec<String> = Vec::new();
    push_title(&mut v);
    push_line(&mut v, labelled_number("Stations: ", stations as u64));
    push_line(&mut v, chars_of(rate_line));
    push_span(&mut v, range);
    push_line(&mut v, labelled_number("Total traces: ", total));
    proof {
        assert(strings_view(v@) =~= seq![title_text(), stations_text(stations as nat), rate_line@] + span_texts(range) + seq![total_text(total as nat)]);
    }
    text_header_of(&v)
}

/// `Time slices: {slices}, Total traces: {total}`.
pub open spec fn slices_text(slices: nat, total: nat) -> Seq<char> {
    "Time slices: "@ + decimal(slices) + ", Total traces: "@ + decimal(total)
}

/// The text header of a file holding a group of minutes: the title,
/// `Stations: {n}`, the sample-rate line `rate_line`, the first and last
/// minute when there are any, and
/// `Time slices: {slices}, Total traces: {total}`.
pub fn group_text_header(stations: usize, rate_line: &str, range: Option<(UtcTime, UtcTime)>, slices: u64, total: u64) -> (h: TextHeader)
    ensures
        h.wf(),
        h.use_utf8,
        strings_view(h.lines@) == labelled_lines(
            seq![title_text(), stations_text(stations as nat), rate_line@] + span_texts(range) + seq![slices_text(slices as nat, total as nat)],
        ),
{
    proof {
        reveal_strlit("Stations: ");
        reveal_strlit("Time slices: ");
        reveal_strlit(", Total traces: ");
    }
    let mut v: Vec<String> = Vec::new();
    push_title(&mut v);
    push_line(&mut v, labelled_number("Stations: ", stations as u64));
    push_line(&mut v, chars_of(rate_line));
    push_span(&mut v, range);
    let mut last = labelled_number("Time slices: ", slices);
    append_chars(&mut last, chars_of(", Total traces: ").as_slice());
    push_decimal(&mut last, total);
    push_line(&mut v, last);
    proof {
        assert(strings_view(v@) =~= seq![title_text(), stations_text(stations as nat), rate_line@] + span_texts(range) + seq![slices_text(slices as nat, total as nat)]);
    }
    text_header_of(&v)
}


/// Where and how a dataset is written: the output folder (as text), the
/// prefix and naming template of the files, the revision declared, whether
/// the GPS table's coordinates replace the recordings' own, and whether each
/// minute gets a file of its own.
#[derive(Debug, Clone)]
pub struct SynthesisOptions {
    pub output_dir: String,
    pub file_prefix: String,
    pub file_template: String,
    pub revision: SegyRevision,
    pub use_gps_coords: bool,
    pub per_minute_files: bool,
}

impl Default for SynthesisOptions {
    /// Files under `./output` named `microseismic_{YYYY}{MM}{DD}_{hh}{mm}`,
    /// revision 2, GPS coordinates used, one file for the whole dataset.
    fn default() -> (o: SynthesisOptions)
        ensures
            o.output_dir@ == "./output"@,
            o.file_prefix@ == "microseismic"@,
            o.file_template@ == "{prefix}_{YYYY}{MM}{DD}_{hh}{mm}"@,
            o.revision == SegyRevision::Rev2,
            o.use_gps_coords,
            !o.per_minute_files,
    {
        SynthesisOptions {
            output_dir: "./output".to_owned(),
            file_prefix: "microseismic".to_owned(),
            file_template: "{prefix}_{YYYY}{MM}{DD}_{hh}{mm}".to_owned(),
            revision: SegyRevision::Rev2,
            use_gps_coords: true,
            per_minute_files: false,
        }
    }
}


/// Which recording gives the trace length of a file made from one minute:
/// that of the first device. Refused when there is no device, or when the
/// first device has no recording in the minute.
pub fn first_device_recording<'a>(devices: &Vec<String>, slice: &'a TimeSlice) -> (r: Result<&'a PathBuf, SegyError>)
    requires
        keys_unique(slice_pairs(slice.files@)),
    ensures
        devices@.len() == 0 ==> (r matches Err(e) && e matches SegyError::InvalidFormat(m)
            && m@ == "No devices"@),
        devices@.len() > 0 && !slice_map(*slice).contains_key(devices@[0]@) ==> (r matches Err(e)
            && e matches SegyError::InvalidFormat(m) && m@ == "No data for first device"@),
        devices@.len() > 0 && slice_map(*slice).contains_key(devices@[0]@) ==> (r matches Ok(p)
            && *p == slice_map(*slice)[devices@[0]@]),
{
    if devices.len() == 0 {
        return Err(SegyError::InvalidFormat("No devices".to_owned()));
    }
    match slice.path_of(devices[0].as_str()) {
        Some(p) => Ok(p),
        None => Err(SegyError::InvalidFormat("No data for first device".to_owned())),
    }
}

/// The title of a file made from one minute on request.
pub open spec fn single_title_text() -> Seq<char> {
    "SEG-Y Rev 2.0 - Microseismic Data"@
}

/// The text header of a file made from one minute on request: its title,
/// `Stations: {n}` and the sample-rate line `rate_line`.
pub fn single_minute_text_header(stations: usize, rate_line: &str) -> (h: TextHeader)
    ensures
        h.wf(),
        h.use_utf8,
        strings_view(h.lines@) == labelled_lines(
            seq![single_title_text(), stations_text(stations as nat), rate_line@],
        ),
{
    proof {
        reveal_strlit("Stations: ");
        reveal_strlit("SEG-Y Rev 2.0 - Microseismic Data");
    }
    let mut v: Vec<String> = Vec::new();
    push_line(&mut v, chars_of("SEG-Y Rev 2.0 - Microseismic Data"));
    push_line(&mut v, labelled_number("Stations: ", stations as u64));
    push_line(&mut v, chars_of(rate_line));
    proof {
        assert(strings_view(v@) =~= seq![single_title_text(), stations_text(stations as nat), rate_line@]);
    }
    text_header_of(&v)
}


/// Why a writer refuses a trace.
pub enum Refusal {
    /// The file headers were not written yet.
    NoHeader,
    /// The trace length differs from the fixed one.
    Mismatch { expected: nat, got: nat },
}

/// Why a writer in state `w` refuses a trace of `len` samples.
pub open spec fn refusal_of(w: WriterState, len: nat) -> Refusal {
    if !w.header_written {
        Refusal::NoHeader
    } else {
        Refusal::Mismatch { expected: w.samples_per_trace, got: len }
    }
}

/// Whether `e` is the error a writer reports for the refusal `f`.
pub open spec fn reports(e: SegyError, f: Refusal) -> bool {
    match f {
        Refusal::NoHeader => e matches SegyError::InvalidFormat(m) && m@ == "Must write header before traces"@,
        Refusal::Mismatch { expected, got } => e matches SegyError::DataMismatch(m) && m@ == mismatch_message(
            expected,
            got,
        ),
    }
}

/// Writing traces one after another from state `w`: the state after the
/// last, or why the first refused one was refused.
pub open spec fn write_all(w: WriterState, ts: Seq<(TraceHeader, Seq<u32>)>) -> Result<WriterState, Refusal>
    decreases ts.len(),
{
    if ts.len() == 0 {
        Ok(w)
    } else {
        match write_all(w, ts.drop_last()) {
            Err(f) => Err(f),
            Ok(v) => if trace_accepted(v, ts.last().1.len()) {
                Ok(state_after_trace(v, ts.last().0, ts.last().1))
            } else {
                Err(refusal_of(v, ts.last().1.len()))
            },
        }
    }
}

/// The traces of a list, with their samples viewed as sequences.
pub open spec fn traces_view(v: Seq<(TraceHeader, Vec<u32>)>) -> Seq<(TraceHeader, Seq<u32>)> {
    v.map_values(|p: (TraceHeader, Vec<u32>)| (p.0, p.1@))
}

/// The traces of one slice numbered for a file of many minutes: the `k`-th
/// (from 0) is trace `seq + k + 1` of the file and the line, in ensemble
/// `slice_idx + 1`.
pub open spec fn numbered_in_file(ts: Seq<(TraceHeader, Seq<u32>)>, seq: int, slice_idx: int) -> Seq<(TraceHeader, Seq<u32>)> {
    Seq::new(
        ts.len(),
        |k: int|
            (
                TraceHeader {
                    trace_sequence_file: (seq + k + 1) as i32,
                    trace_sequence_line: (seq + k + 1) as i32,
                    ensemble_number: wrap32(slice_idx + 1),
                    ..ts[k].0
                },
                ts[k].1,
            ),
    )
}

/// The traces of a one-minute file numbered: the `k`-th (from 0) is trace
/// `k + 1` of the file, the line and the single ensemble.
pub open spec fn numbered_in_minute(ts: Seq<(TraceHeader, Seq<u32>)>) -> Seq<(TraceHeader, Seq<u32>)> {
    Seq::new(
        ts.len(),
        |k: int|
            (
                TraceHeader {
                    trace_sequence_file: wrap32(k + 1),
                    trace_sequence_line: wrap32(k + 1),
                    ensemble_number: 1,
                    trace_number_within_ensemble: wrap32(k + 1),
                    ..ts[k].0
                },
                ts[k].1,
            ),
    )
}

/// The state after writing traces one after another up to the first
/// refused one: the traces accepted before it stay written.
pub open spec fn write_until(w: WriterState, ts: Seq<(TraceHeader, Seq<u32>)>) -> WriterState
    decreases ts.len(),
{
    if ts.len() == 0 {
        w
    } else {
        match write_all(w, ts.drop_last()) {
            Err(_) => write_until(w, ts.drop_last()),
            Ok(v) => if trace_accepted(v, ts.last().1.len()) {
                state_after_trace(v, ts.last().0, ts.last().1)
            } else {
                v
            },
        }
    }
}

proof fn lemma_until_stays(w: WriterState, ts: Seq<(TraceHeader, Seq<u32>)>, k: int)
    requires
        0 <= k <= ts.len(),
        write_all(w, ts.take(k)) is Err,
    ensures
        write_until(w, ts) == write_until(w, ts.take(k)),
    decreases ts.len() - k,
{
    if k == ts.len() {
        assert(ts.take(k) =~= ts);
    } else {
        let r = ts.drop_last();
        assert(r.take(k) =~= ts.take(k));
        lemma_until_stays(w, r, k);
        lemma_refusal_stays(w, r, k);
    }
}

proof fn lemma_refusal_stays(w: WriterState, ts: Seq<(TraceHeader, Seq<u32>)>, k: int)
    requires
        0 <= k <= ts.len(),
        write_all(w, ts.take(k)) is Err,
    ensures
        write_all(w, ts) == write_all(w, ts.take(k)),
    decreases ts.len() - k,
{
    if k == ts.len() {
        assert(ts.take(k) =~= ts);
    } else {
        let r = ts.drop_last();
        assert(r.take(k) =~= ts.take(k));
        lemma_refusal_stays(w, r, k);
    }
}

/// Writes the traces of one slice into a file of many minutes, numbering
/// them after trace `seq` (see `numbered_in_file`); gives the number of the
/// last trace written. The first trace refused ends the writing with the
/// writer's error.
pub fn write_slice_traces(w: &mut SegyWriter, traces: &Vec<(TraceHeader, Vec<u32>)>, seq: i32, slice_idx: usize) -> (r: Result<i32, SegyError>)
    requires
        old(w)@.traces_written + traces@.len() < u64::MAX,
        seq + traces@.len() <= i32::MAX,
        seq >= 0,
        slice_idx < usize::MAX,
    ensures
        match write_all(old(w)@, numbered_in_file(traces_view(traces@), seq as int, slice_idx as int)) {
            Ok(v) => r == Ok::<i32, SegyError>((seq + traces@.len()) as i32) && final(w)@ == v,
            Err(f) => r matches Err(e) && reports(e, f) && final(w)@ == write_until(
                old(w)@,
                numbered_in_file(traces_view(traces@), seq as int, slice_idx as int),
            ),
        },
{
    let ghost all = numbered_in_file(traces_view(traces@), seq as int, slice_idx as int);
    let ghost w0 = w@;
    let mut i: usize = 0;
    let mut n: i32 = seq;
    assert(all.take(0) =~= Seq::<(TraceHeader, Seq<u32>)>::empty());
    while i < traces.len()
        invariant
            i <= traces@.len(),
            n == seq + i,
            seq >= 0,
            seq + traces@.len() <= i32::MAX,
            slice_idx < usize::MAX,
            w0 == old(w)@,
            all == numbered_in_file(traces_view(traces@), seq as int, slice_idx as int),
            w0.traces_written + traces@.len() < u64::MAX,
            write_all(w0, all.take(i as int)) == Ok::<WriterState, Refusal>(w@),
            w@.traces_written == w0.traces_written + i,
        decreases traces.len() - i,
    {
        n = n + 1;
        let mut h = traces[i].0;
        number_file_trace(&mut h, n, slice_idx);
        let ghost before = w@;
        let res = w.write_trace(&h, traces[i].1.as_slice());
        proof {
            assert(all.take(i + 1).drop_last() =~= all.take(i as int));
            assert(all.take(i + 1).last() == all[i as int]);
            assert(traces_view(traces@)[i as int] == (traces@[i as int].0, traces@[i as int].1@));
            assert(all[i as int].0 == h);
            assert(all[i as int].1 == traces@[i as int].1@);
        }
        match res {
            Ok(()) => {},
            Err(e) => {
                proof {
                    lemma_refusal_stays(w0, all, i + 1);
                    lemma_until_stays(w0, all, i + 1);
                    assert(all.take(i + 1).drop_last() =~= all.take(i as int));
                }
                return Err(e);
            },
        }
        i = i + 1;
    }
    assert(all.take(all.len() as int) =~= all);
    Ok(n)
}

/// Writes the traces of a one-minute file, numbering them from 1 (see
/// `numbered_in_minute`). The first trace refused ends the writing with
/// the writer's error.
pub fn write_minute_traces(w: &mut SegyWriter, traces: &Vec<(TraceHeader, Vec<u32>)>) -> (r: Result<(), SegyError>)
    requires
        old(w)@.traces_written + traces@.len() < u64::MAX,
    ensures
        match write_all(old(w)@, numbered_in_minute(traces_view(traces@))) {
            Ok(v) => r is Ok && final(w)@ == v,
            Err(f) => r matches Err(e) && reports(e, f) && final(w)@ == write_until(
                old(w)@,
                numbered_in_minute(traces_view(traces@)),
            ),
        },
{
    let ghost all = numbered_in_minute(traces_view(traces@));
    let ghost w0 = w@;
    let mut i: usize = 0;
    assert(all.take(0) =~= Seq::<(TraceHeader, Seq<u32>)>::empty());
    while i < traces.len()
        invariant
            i <= traces@.len(),
            w0 == old(w)@,
            all == numbered_in_minute(traces_view(traces@)),
            w0.traces_written + traces@.len() < u64::MAX,
            write_all(w0, all.take(i as int)) == Ok::<WriterState, Refusal>(w@),
            w@.traces_written == w0.traces_written + i,
        decreases traces.len() - i,
    {
        let mut h = traces[i].0;
        number_minute_trace(&mut h, i);
        let res = w.write_trace(&h, traces[i].1.as_slice());
        proof {
            assert(all.take(i + 1).drop_last() =~= all.take(i as int));
            assert(all.take(i + 1).last() == all[i as int]);
            assert(traces_view(traces@)[i as int] == (traces@[i as int].0, traces@[i as int].1@));
            assert(all[i as int].0 == h);
            assert(all[i as int].1 == traces@[i as int].1@);
        }
        match res {
            Ok(()) => {},
            Err(e) => {
                proof {
                    lemma_refusal_stays(w0, all, i + 1);
                    lemma_until_stays(w0, all, i + 1);
                    assert(all.take(i + 1).drop_last() =~= all.take(i as int));
                }
                return Err(e);
            },
        }
        i = i + 1;
    }
    assert(all.take(all.len() as int) =~= all);
    Ok(())
}


/// The number of traces in the slices before slice `k`.
pub open spec fn traces_before(slices: Seq<Seq<(TraceHeader, Seq<u32>)>>, k: int) -> int
    decreases k,
{
    if k <= 0 {
        0
    } else {
        traces_before(slices, k - 1) + slices[k - 1].len()
    }
}

/// The traces of a file of many minutes as `write_slice_traces` numbers
/// them slice after slice, each slice numbered after the traces before it.
pub open spec fn file_traces(slices: Seq<Seq<(TraceHeader, Seq<u32>)>>) -> Seq<(TraceHeader, Seq<u32>)>
    decreases slices.len(),
{
    if slices.len() == 0 {
        Seq::empty()
    } else {
        let k = slices.len() - 1;
        file_traces(slices.drop_last()) + numbered_in_file(slices[k], traces_before(slices, k), k)
    }
}

/// Counting the traces before slice `k` does not look at later slices.
pub proof fn lemma_traces_before_prefix(slices: Seq<Seq<(TraceHeader, Seq<u32>)>>, k: int)
    requires
        0 <= k < slices.len(),
    ensures
        traces_before(slices.drop_last(), k) == traces_before(slices, k),
    decreases k,
{
    if k > 0 {
        lemma_traces_before_prefix(slices, k - 1);
    }
}

/// Numbering slice after slice numbers the whole file: the `j`-th trace of
/// the file (from 0) is trace `j + 1` of the file and the line, and the
/// file holds every trace of every slice.
pub proof fn lemma_file_numbering(slices: Seq<Seq<(TraceHeader, Seq<u32>)>>)
    requires
        traces_before(slices, slices.len() as int) <= i32::MAX,
    ensures
        file_traces(slices).len() == traces_before(slices, slices.len() as int),
        forall|j: int| 0 <= j < file_traces(slices).len() ==> (#[trigger] file_traces(slices)[j]).0.trace_sequence_file
            == j + 1 && file_traces(slices)[j].0.trace_sequence_line == j + 1,
    decreases slices.len(),
{
    if slices.len() > 0 {
        let r = slices.drop_last();
        let k = slices.len() - 1;
        lemma_traces_before_prefix(slices, k);
        assert(traces_before(r, k) == traces_before(slices, k));
        assert(traces_before(r, r.len() as int) <= i32::MAX);
        lemma_file_numbering(r);
        let f = file_traces(slices);
        let fr = file_traces(r);
        let off = traces_before(slices, k);
        let tail = numbered_in_file(slices[k], off, k);
        assert(f == fr + tail);
        assert forall|j: int| 0 <= j < f.len() implies (#[trigger] f[j]).0.trace_sequence_file == j + 1
            && f[j].0.trace_sequence_line == j + 1 by {
            if j < fr.len() {
                assert(f[j] == fr[j]);
            } else {
                let i = j - fr.len();
                assert(f[j] == tail[i]);
                assert(0 < off + i + 1 <= i32::MAX);
            }
        }
    }
}

} // verus!
