use crate::assoc::{assoc_map, keys_unique, lemma_assoc_dom, lemma_assoc_get, lemma_assoc_insert, lemma_assoc_update};
use crate::error::SegyError;
use crate::order::{chars_lt, insert_sorted, strictly_sorted, strings_view};
use crate::text::{
    all_digits, chars_eq, chars_of, contains_chars, contains_seq, digits_value, is_digit, rfind, rfind_char,
    string_of,
};
use crate::time::{parse_date, parse_utc, spec_parse_date, spec_parse_utc, CivilTime, UtcTime};
use std::path::PathBuf;
use vstd::prelude::*;

verus! {

/// `std::path::PathBuf`, carried through opaquely.
#[verifier::external_type_specification]
#[verifier::external_body]
pub struct ExPathBuf(PathBuf);

/// The text of an optional name, empty when there is none.
pub open spec fn name_text(o: Option<Seq<char>>) -> Seq<char> {
    match o {
        Some(s) => s,
        None => Seq::empty(),
    }
}

/// The view of an optional string.
pub open spec fn opt_view(o: Option<&str>) -> Option<Seq<char>> {
    match o {
        Some(s) => Some(s@),
        None => None,
    }
}

/// The `chrono` format of the time in a recording's file name.
pub open spec fn file_time_format() -> Seq<char> {
    "%Y-%m-%d_%H_%M"@
}

/// The `chrono` format of a date folder's name.
pub open spec fn date_folder_format() -> Seq<char> {
    "%Y-%m-%d"@
}

/// The time a recording's file stem names: the part before its last `-`,
/// read with the format `%Y-%m-%d_%H_%M`.
pub open spec fn time_in_name(stem: Seq<char>) -> Option<CivilTime> {
    match rfind(stem, '-') {
        None => None,
        Some(k) => match spec_parse_utc(stem.take(k), file_time_format()) {
            Ok(t) => Some(t),
            Err(_) => None,
        },
    }
}

/// Reads the time from the stem of a recording's file name, such as
/// `2026-01-25_00_00-24002`: the part before the last `-` is read with the
/// format `%Y-%m-%d_%H_%M`.
pub fn parse_time_from_filename(filename: &str) -> (r: Option<UtcTime>)
    ensures
        match r {
            Some(t) => time_in_name(filename@) == Some(t@),
            None => time_in_name(filename@) is None,
        },
{
    let cs = chars_of(filename);
    match rfind_char(cs.as_slice(), '-') {
        None => None,
        Some(k) => {
            proof {
                crate::text::lemma_rfind_bound(cs@, '-');
            }
            let head = crate::text::copy_range(cs.as_slice(), 0, k);
            assert(head@ =~= filename@.take(k as int));
            let s = string_of(head.as_slice());
            match parse_utc(s.as_str(), "%Y-%m-%d_%H_%M") {
                Ok(t) => Some(t),
                Err(_) => None,
            }
        },
    }
}

/// How a dataset is gathered: the root folder (holding date folders that
/// hold device folders that hold recordings), the devices taken (all when
/// `None`), the range of date folders taken, as day numbers from the common
/// era (all when `None`), and the trace length (taken from the first
/// recording when `None`).
#[derive(Debug)]
pub struct DatasetBuilder {
    pub root_dir: PathBuf,
    pub selected_devices: Option<Vec<String>>,
    pub date_range: Option<(i32, i32)>,
    pub samples_per_minute: Option<usize>,
}

/// Whether the filter lets the device `dev` through.
pub open spec fn device_selected(f: DatasetBuilder, dev: Seq<char>) -> bool {
    match f.selected_devices {
        None => true,
        Some(v) => strings_view(v@).contains(dev),
    }
}

/// Whether the filter lets the date folder `date` through: with a range,
/// its name must read as a date within it.
pub open spec fn date_selected(f: DatasetBuilder, date: Seq<char>) -> bool {
    match f.date_range {
        None => true,
        Some((a, b)) => match spec_parse_date(date, date_folder_format()) {
            Some(d) => a <= d <= b,
            None => false,
        },
    }
}

/// The recording a directory entry three levels below the root stands
/// for, if any: a file with the extension `txt` whose stem holds no `GPS`,
/// inside a device folder with a non-empty name inside a date folder, that
/// the filter lets through and whose stem names a time. It gives the
/// device, the date folder and the time.
pub open spec fn data_file_choice(
    is_file: bool,
    ext: Option<Seq<char>>,
    stem: Option<Seq<char>>,
    device_dir: Option<Seq<char>>,
    date_dir: Option<Seq<char>>,
    f: DatasetBuilder,
) -> Option<(Seq<char>, Seq<char>, CivilTime)> {
    let dev = name_text(device_dir);
    let date = name_text(date_dir);
    let st = name_text(stem);
    if !is_file || name_text(ext) != "txt"@ || contains_seq(st, "GPS"@) || dev.len() == 0 {
        None
    } else if !device_selected(f, dev) || !date_selected(f, date) {
        None
    } else {
        match time_in_name(st) {
            None => None,
            Some(t) => Some((dev, date, t)),
        }
    }
}

/// The filters decide a recording by its folders: a recording is taken
/// only from a device folder among the selected devices (when some are
/// selected) and a date folder whose name reads as a day from the range's
/// start to its end, both included (when a range is set); and a recording
/// that is otherwise taken (a `txt` file whose stem names a time and holds
/// no `GPS`, in a device folder with a name) is taken exactly when its
/// device is selected and its date folder's day lies in the range.
pub proof fn lemma_filters_decide(
    is_file: bool,
    ext: Option<Seq<char>>,
    stem: Option<Seq<char>>,
    device_dir: Option<Seq<char>>,
    date_dir: Option<Seq<char>>,
    f: DatasetBuilder,
)
    ensures
        data_file_choice(is_file, ext, stem, device_dir, date_dir, f) is Some ==> {
            &&& f.selected_devices matches Some(v) ==> strings_view(v@).contains(name_text(device_dir))
            &&& f.date_range matches Some((a, b)) ==> {
                &&& spec_parse_date(name_text(date_dir), "%Y-%m-%d"@) is Some
                &&& a <= spec_parse_date(name_text(date_dir), "%Y-%m-%d"@)->0 <= b
            }
        },
        ({
            let dev = name_text(device_dir);
            let date = name_text(date_dir);
            let st = name_text(stem);
            let in_range = match f.date_range {
                None => true,
                Some((a, b)) => match spec_parse_date(date, "%Y-%m-%d"@) {
                    Some(d) => a <= d && d <= b,
                    None => false,
                },
            };
            let chosen_dev = match f.selected_devices {
                None => true,
                Some(v) => strings_view(v@).contains(dev),
            };
            (is_file && name_text(ext) == "txt"@ && !contains_seq(st, "GPS"@) && dev.len() > 0) ==> (
            time_in_name(st) matches Some(t) ==> data_file_choice(is_file, ext, stem, device_dir, date_dir, f)
                == (if chosen_dev && in_range { Some((dev, date, t)) } else { None }))
        }),
{
}

fn text_or_empty(o: Option<&str>) -> (v: Vec<char>)
    ensures
        v@ == name_text(opt_view(o)),
{
    match o {
        Some(s) => chars_of(s),
        None => Vec::new(),
    }
}

fn selected_contains(v: &Vec<String>, dev: &String) -> (b: bool)
    ensures
        b == strings_view(v@).contains(dev@),
{
    let mut i: usize = 0;
    while i < v.len()
        invariant
            i <= v@.len(),
            forall|k: int| 0 <= k < i ==> strings_view(v@)[k] != dev@,
        decreases v.len() - i,
    {
        if v[i] == *dev {
            assert(strings_view(v@)[i as int] == dev@);
            return true;
        }
        i = i + 1;
    }
    false
}

impl DatasetBuilder {
    /// Gathers every recording under `root_dir`, its trace length taken
    /// from the first recording.
    pub fn new(root_dir: PathBuf) -> (b: DatasetBuilder)
        ensures
            b.root_dir == root_dir,
            b.selected_devices is None,
            b.date_range is None,
            b.samples_per_minute is None,
    {
        DatasetBuilder { root_dir, selected_devices: None, date_range: None, samples_per_minute: None }
    }

    /// Takes only the recordings of `devices`.
    pub fn with_devices(self, devices: Vec<String>) -> (b: DatasetBuilder)
        ensures
            b == (DatasetBuilder { selected_devices: Some(devices), ..self }),
    {
        DatasetBuilder { selected_devices: Some(devices), ..self }
    }

    /// Takes only the date folders from day `start` to day `end`, both
    /// included, counted from the common era.
    pub fn with_date_range(self, start: i32, end: i32) -> (b: DatasetBuilder)
        ensures
            b == (DatasetBuilder { date_range: Some((start, end)), ..self }),
    {
        DatasetBuilder { date_range: Some((start, end)), ..self }
    }

    /// Fixes the trace length instead of reading it from the first
    /// recording.
    pub fn with_samples_per_minute(self, n: usize) -> (b: DatasetBuilder)
        ensures
            b == (DatasetBuilder { samples_per_minute: Some(n), ..self }),
    {
        DatasetBuilder { samples_per_minute: Some(n), ..self }
    }

    /// Groups the recordings gathered into a dataset (see
    /// `TimeAlignedDataset::from_files`); the trace length is the fixed one,
    /// else `first_file_samples`, the length of the first recording.
    pub fn build(self, files: Vec<FileInfo>, first_file_samples: usize) -> (r: Result<TimeAlignedDataset, SegyError>)
        ensures
            files@.len() == 0 <==> r is Err,
            r matches Err(e) ==> (e matches SegyError::InvalidFormat(m)
                && m@ == "No valid microseismic data files found"@),
            r matches Ok(d) ==> {
                &&& strictly_sorted(strings_view(d.devices@))
                &&& strings_view(d.devices@).to_set() == file_devices(files@)
                &&& slices_wf(d.time_slices@)
                &&& assoc_map(slices_pairs(d.time_slices@)) == grouped(files@)
                &&& d.samples_per_minute == match self.samples_per_minute {
                    Some(n) => n,
                    None => first_file_samples,
                }
            },
    {
        let n = match self.samples_per_minute {
            Some(n) => n,
            None => first_file_samples,
        };
        TimeAlignedDataset::from_files(files, n)
    }

    /// Decides which recording, if any, a directory entry three levels
    /// below the root stands for: `is_file` tells whether it is a regular
    /// file, `ext` and `stem` are its extension and stem, `device_dir` and
    /// `date_dir` the names of its parent and grandparent folders (each
    /// `None` when missing or not valid Unicode).
    pub fn choose_file(
        &self,
        is_file: bool,
        ext: Option<&str>,
        stem: Option<&str>,
        device_dir: Option<&str>,
        date_dir: Option<&str>,
    ) -> (r: Option<(String, String, UtcTime)>)
        ensures
            match r {
                Some((d, df, t)) => data_file_choice(
                    is_file,
                    opt_view(ext),
                    opt_view(stem),
                    opt_view(device_dir),
                    opt_view(date_dir),
                    *self,
                ) == Some((d@, df@, t@)),
                None => data_file_choice(
                    is_file,
                    opt_view(ext),
                    opt_view(stem),
                    opt_view(device_dir),
                    opt_view(date_dir),
                    *self,
                ) is None,
            },
    {
        if !is_file {
            return None;
        }
        let e = text_or_empty(ext);
        let txt = chars_of("txt");
        if !chars_eq(e.as_slice(), txt.as_slice()) {
            return None;
        }
        let st = text_or_empty(stem);
        let gps = chars_of("GPS");
        if contains_chars(st.as_slice(), gps.as_slice()) {
            return None;
        }
        let dv = text_or_empty(device_dir);
        if dv.len() == 0 {
            return None;
        }
        let dev = string_of(dv.as_slice());
        let date = string_of(text_or_empty(date_dir).as_slice());
        match &self.selected_devices {
            Some(sel) => {
                if !selected_contains(sel, &dev) {
                    return None;
                }
            },
            None => {},
        }
        match self.date_range {
            Some((a, b)) => {
                match parse_date(date.as_str(), "%Y-%m-%d") {
                    Some(d) => {
                        if d < a || d > b {
                            return None;
                        }
                    },
                    None => {
                        return None;
                    },
                }
            },
            None => {},
        }
        let stem_s = string_of(st.as_slice());
        match parse_time_from_filename(stem_s.as_str()) {
            None => None,
            Some(t) => Some((dev, date, t)),
        }
    }
}

/// A recording found under the root.
#[derive(Debug)]
pub struct FileInfo {
    pub path: PathBuf,
    pub device_id: String,
    pub date_folder: String,
    pub time: UtcTime,
}

/// One device's recording in a time slice.
#[derive(Debug)]
pub struct SliceFile {
    pub device_id: String,
    pub path: PathBuf,
}

/// The recordings of one minute, at most one per device.
#[derive(Debug)]
pub struct TimeSlice {
    pub time: UtcTime,
    pub files: Vec<SliceFile>,
}

/// The devices, time slices and trace length of a conversion.
#[derive(Debug)]
pub struct TimeAlignedDataset {
    /// Every device that has a recording, in increasing order.
    pub devices: Vec<String>,
    /// The time slices, in increasing order of time.
    pub time_slices: Vec<TimeSlice>,
    /// The number of samples of each trace.
    pub samples_per_minute: usize,
}

/// A slice's recordings as (device, path) pairs.
pub open spec fn slice_pairs(fs: Seq<SliceFile>) -> Seq<(Seq<char>, PathBuf)> {
    fs.map_values(|f: SliceFile| (f.device_id@, f.path))
}

/// The map from device to recording of a slice.
pub open spec fn slice_map(s: TimeSlice) -> Map<Seq<char>, PathBuf> {
    assoc_map(slice_pairs(s.files@))
}

/// The slices as (timestamp, map from device to recording) pairs.
pub open spec fn slices_pairs(v: Seq<TimeSlice>) -> Seq<(int, Map<Seq<char>, PathBuf>)> {
    v.map_values(|s: TimeSlice| (s.time@.timestamp, slice_map(s)))
}

/// Slices in strictly increasing order of time, each naming a device at
/// most once.
pub open spec fn slices_wf(v: Seq<TimeSlice>) -> bool {
    &&& forall|i: int, j: int|
        0 <= i < j < v.len() ==> (#[trigger] v[i]).time@.timestamp < (#[trigger] v[j]).time@.timestamp
    &&& forall|k: int| 0 <= k < v.len() ==> keys_unique(slice_pairs((#[trigger] v[k]).files@))
}

/// The recordings grouped by the minute they start: for each timestamp,
/// the map from device to recording, a later recording of the same device
/// and minute replacing an earlier one.
pub open spec fn grouped(files: Seq<FileInfo>) -> Map<int, Map<Seq<char>, PathBuf>>
    decreases files.len(),
{
    if files.len() == 0 {
        Map::empty()
    } else {
        let m = grouped(files.drop_last());
        let f = files.last();
        let ts = f.time@.timestamp;
        m.insert(
            ts,
            (if m.contains_key(ts) { m[ts] } else { Map::empty() }).insert(f.device_id@, f.path),
        )
    }
}

/// The devices of the recordings.
pub open spec fn file_devices(files: Seq<FileInfo>) -> Set<Seq<char>> {
    files.map_values(|f: FileInfo| f.device_id@).to_set()
}

pub proof fn lemma_slices_keys_unique(v: Seq<TimeSlice>)
    requires
        slices_wf(v),
    ensures
        keys_unique(slices_pairs(v)),
{
    assert forall|i: int, j: int| 0 <= i < j < slices_pairs(v).len() implies #[trigger] slices_pairs(v)[i].0
        != #[trigger] slices_pairs(v)[j].0 by {
        assert(v[i].time@.timestamp < v[j].time@.timestamp);
    }
}

/// Puts the recording of `dev` at `path` into a slice's list, replacing
/// the device's earlier recording.
fn upsert_file(files: &mut Vec<SliceFile>, dev: String, path: PathBuf)
    requires
        keys_unique(slice_pairs(old(files)@)),
    ensures
        keys_unique(slice_pairs(final(files)@)),
        assoc_map(slice_pairs(final(files)@)) == assoc_map(slice_pairs(old(files)@)).insert(dev@, path),
{
    let ghost old_pairs = slice_pairs(files@);
    let mut j: usize = 0;
    while j < files.len()
        invariant
            *files == *old(files),
            old_pairs == slice_pairs(files@),
            keys_unique(old_pairs),
            j <= files@.len(),
            forall|k: int| 0 <= k < j ==> old_pairs[k].0 != dev@,
        decreases files.len() - j,
    {
        if files[j].device_id == dev {
            proof {
                assert(old_pairs[j as int].0 == dev@);
                lemma_assoc_update(old_pairs, j as int, path);
            }
            files.set(j, SliceFile { device_id: dev, path });
            assert(slice_pairs(files@) =~= old_pairs.update(j as int, (old_pairs[j as int].0, path)));
            return;
        }
        j = j + 1;
    }
    proof {
        lemma_assoc_insert(old_pairs, old_pairs.len() as int, dev@, path);
        assert(old_pairs.insert(old_pairs.len() as int, (dev@, path)) =~= old_pairs.push((dev@, path)));
    }
    let ghost dv = dev@;
    files.push(SliceFile { device_id: dev, path });
    assert(slice_pairs(files@) =~= old_pairs.push((dv, path)));
}

/// The first slice whose time is not before `ts`.
pub fn slice_position(v: &Vec<TimeSlice>, ts: i64) -> (k: usize)
    requires
        slices_wf(v@),
    ensures
        k <= v@.len(),
        forall|i: int| 0 <= i < k ==> (#[trigger] v@[i]).time@.timestamp < ts,
        forall|i: int| k <= i < v@.len() ==> (#[trigger] v@[i]).time@.timestamp >= ts,
{
    let mut lo: usize = 0;
    let mut hi: usize = v.len();
    while lo < hi
        invariant
            slices_wf(v@),
            lo <= hi <= v@.len(),
            forall|i: int| 0 <= i < lo ==> (#[trigger] v@[i]).time@.timestamp < ts,
            forall|i: int| hi <= i < v@.len() ==> (#[trigger] v@[i]).time@.timestamp >= ts,
        decreases hi - lo,
    {
        let mid = lo + (hi - lo) / 2;
        if v[mid].time.timestamp() < ts {
            assert forall|i: int| 0 <= i < mid + 1 implies (#[trigger] v@[i]).time@.timestamp < ts by {
                if i < mid {
                    assert(v@[i].time@.timestamp < v@[mid as int].time@.timestamp);
                }
            }
            lo = mid + 1;
        } else {
            assert forall|i: int| mid <= i < v@.len() implies (#[trigger] v@[i]).time@.timestamp >= ts by {
                if i > mid {
                    assert(v@[mid as int].time@.timestamp < v@[i].time@.timestamp);
                }
            }
            hi = mid;
        }
    }
    lo
}

/// Files a recording into its time slice.
pub fn add_to_slices(v: &mut Vec<TimeSlice>, time: UtcTime, dev: String, path: PathBuf)
    requires
        slices_wf(old(v)@),
    ensures
        slices_wf(final(v)@),
        ({
            let m = assoc_map(slices_pairs(old(v)@));
            let ts = time@.timestamp;
            assoc_map(slices_pairs(final(v)@)) == m.insert(
                ts,
                (if m.contains_key(ts) { m[ts] } else { Map::empty() }).insert(dev@, path),
            )
        }),
{
    let ts = time.timestamp();
    let k = slice_position(v, ts);
    let ghost old_v = v@;
    let ghost old_pairs = slices_pairs(v@);
    proof {
        lemma_slices_keys_unique(v@);
    }
    if k < v.len() && v[k].time.timestamp() == ts {
        proof {
            lemma_assoc_get(old_pairs, k as int);
        }
        let ghost old_slice_map = slice_map(v@[k as int]);
        let ghost dv = dev@;
        {
            let slice = &mut v[k];
            upsert_file(&mut slice.files, dev, path);
        }
        proof {
            let new_pairs = slices_pairs(v@);
            assert(new_pairs =~= old_pairs.update(k as int, (old_pairs[k as int].0, old_slice_map.insert(dv, path))));
            lemma_assoc_update(old_pairs, k as int, old_slice_map.insert(dv, path));
            assert forall|i: int, j: int| 0 <= i < j < v@.len() implies (#[trigger] v@[i]).time@.timestamp
                < (#[trigger] v@[j]).time@.timestamp by {
                assert(old_v[i].time@.timestamp < old_v[j].time@.timestamp);
            }
            assert forall|q: int| 0 <= q < v@.len() implies keys_unique(slice_pairs((#[trigger] v@[q]).files@)) by {
                if q != k {
                    assert(v@[q] == old_v[q]);
                }
            }
        }
    } else {
        proof {
            assert forall|i: int| 0 <= i < old_pairs.len() implies #[trigger] old_pairs[i].0 != ts by {
                if i < k {
                } else if i == k {
                } else {
                    assert(old_v[k as int].time@.timestamp < old_v[i].time@.timestamp);
                }
            }
            lemma_assoc_dom(old_pairs, ts as int);
            lemma_assoc_insert(old_pairs, k as int, ts as int, Map::<Seq<char>, PathBuf>::empty().insert(dev@, path));
        }
        let ghost dv = dev@;
        let ghost pv = path;
        let mut files: Vec<SliceFile> = Vec::new();
        files.push(SliceFile { device_id: dev, path });
        proof {
            assert(files@.len() == 1);
            assert(files@[0].device_id@ == dv);
            assert(files@[0].path == pv);
            assert(slice_pairs(files@)[0] == (dv, path));
            assert(slice_pairs(files@) =~= seq![(dv, path)]);
            assert(seq![(dv, path)] =~= Seq::<(Seq<char>, PathBuf)>::empty().push((dv, path)));
            crate::assoc::lemma_assoc_push(Seq::<(Seq<char>, PathBuf)>::empty(), dv, path);
            assert(assoc_map(Seq::<(Seq<char>, PathBuf)>::empty()) =~= Map::<Seq<char>, PathBuf>::empty());
        }
        v.insert(k, TimeSlice { time, files });
        proof {
            assert(slices_pairs(v@) =~= old_pairs.insert(k as int, (ts as int, Map::<Seq<char>, PathBuf>::empty().insert(dv, path))));
            assert forall|i: int, j: int| 0 <= i < j < v@.len() implies (#[trigger] v@[i]).time@.timestamp
                < (#[trigger] v@[j]).time@.timestamp by {
                if i < k && j == k {
                } else if i < k && j > k {
                    assert(v@[j] == old_v[j - 1]);
                } else if i == k {
                    assert(v@[j] == old_v[j - 1]);
                } else if j < k {
                } else {
                    assert(v@[i] == old_v[i - 1]);
                    assert(v@[j] == old_v[j - 1]);
                }
            }
            assert forall|q: int| 0 <= q < v@.len() implies keys_unique(slice_pairs((#[trigger] v@[q]).files@)) by {
                if q < k {
                    assert(v@[q] == old_v[q]);
                } else if q > k {
                    assert(v@[q] == old_v[q - 1]);
                }
            }
        }
    }
}

impl TimeSlice {
    /// Whether the slice names each device at most once.
    pub fn devices_unique(&self) -> (b: bool)
        ensures
            b == keys_unique(slice_pairs(self.files@)),
    {
        let ghost pairs = slice_pairs(self.files@);
        let n = self.files.len();
        let mut i: usize = 0;
        while i < n
            invariant
                n == self.files@.len(),
                pairs == slice_pairs(self.files@),
                i <= n,
                forall|a: int, c: int| 0 <= a < c < n && a < i ==> #[trigger] pairs[a].0 != #[trigger] pairs[c].0,
            decreases n - i,
        {
            let di = chars_of(self.files[i].device_id.as_str());
            let mut j: usize = i + 1;
            while j < n
                invariant
                    n == self.files@.len(),
                    pairs == slice_pairs(self.files@),
                    i < j <= n,
                    di@ == pairs[i as int].0,
                    forall|a: int, c: int| 0 <= a < c < n && a < i ==> #[trigger] pairs[a].0 != #[trigger] pairs[c].0,
                    forall|c: int| i < c < j ==> pairs[i as int].0 != #[trigger] pairs[c].0,
                decreases n - j,
            {
                let dj = chars_of(self.files[j].device_id.as_str());
                assert(dj@ == pairs[j as int].0);
                if chars_eq(di.as_slice(), dj.as_slice()) {
                    return false;
                }
                j = j + 1;
            }
            i = i + 1;
        }
        true
    }

    /// The recording of `device` in this minute, if it has one.
    pub fn path_of(&self, device: &str) -> (r: Option<&PathBuf>)
        requires
            keys_unique(slice_pairs(self.files@)),
        ensures
            match r {
                Some(p) => slice_map(*self).contains_key(device@) && slice_map(*self)[device@] == *p,
                None => !slice_map(*self).contains_key(device@),
            },
    {
        let ghost pairs = slice_pairs(self.files@);
        let dc = chars_of(device);
        let mut j: usize = 0;
        while j < self.files.len()
            invariant
                dc@ == device@,
                pairs == slice_pairs(self.files@),
                keys_unique(pairs),
                j <= self.files@.len(),
                forall|k: int| 0 <= k < j ==> pairs[k].0 != device@,
            decreases self.files.len() - j,
        {
            let fc = chars_of(self.files[j].device_id.as_str());
            assert(fc@ == pairs[j as int].0);
            if chars_eq(fc.as_slice(), dc.as_slice()) {
                proof {
                    assert(pairs[j as int].0 == device@);
                    lemma_assoc_get(pairs, j as int);
                }
                return Some(&self.files[j].path);
            }
            j = j + 1;
        }
        proof {
            lemma_assoc_dom(pairs, device@);
        }
        None
    }
}

impl TimeAlignedDataset {
    /// Groups recordings into time slices. Refused when there is no
    /// recording; otherwise the devices are all the recordings' devices in
    /// increasing order, and the slices are the recordings grouped by
    /// minute, a later recording of a device in a minute replacing an
    /// earlier one.
    pub fn from_files(files: Vec<FileInfo>, samples_per_minute: usize) -> (r: Result<
        TimeAlignedDataset,
        SegyError,
    >)
        ensures
            files@.len() == 0 <==> r is Err,
            r matches Err(e) ==> (e matches SegyError::InvalidFormat(m)
                && m@ == "No valid microseismic data files found"@),
            r matches Ok(d) ==> {
                &&& strictly_sorted(strings_view(d.devices@))
                &&& strings_view(d.devices@).to_set() == file_devices(files@)
                &&& slices_wf(d.time_slices@)
                &&& assoc_map(slices_pairs(d.time_slices@)) == grouped(files@)
                &&& d.samples_per_minute == samples_per_minute
            },
    {
        if files.len() == 0 {
            return Err(SegyError::InvalidFormat("No valid microseismic data files found".to_owned()));
        }
        let ghost all = files@;
        let mut devices: Vec<String> = Vec::new();
        let mut slices: Vec<TimeSlice> = Vec::new();
        proof {
            assert(all.take(0) =~= Seq::<FileInfo>::empty());
            assert(strings_view(devices@).to_set() =~= file_devices(all.take(0)));
            assert(slices_pairs(slices@) =~= Seq::<(int, Map<Seq<char>, PathBuf>)>::empty());
            assert(assoc_map(slices_pairs(slices@)) =~= grouped(all.take(0)));
        }
        for f in it: files
            invariant
                it.seq() == all,
                strictly_sorted(strings_view(devices@)),
                strings_view(devices@).to_set() == file_devices(all.take(it.index())),
                slices_wf(slices@),
                assoc_map(slices_pairs(slices@)) == grouped(all.take(it.index())),
        {
            let ghost i = it.index();
            proof {
                assert(all.take(i + 1).drop_last() =~= all.take(i));
                assert(all.take(i + 1).last() == all[i]);
                assert(all.take(i + 1).map_values(|g: FileInfo| g.device_id@) =~= all.take(i).map_values(
                    |g: FileInfo| g.device_id@,
                ).push(all[i].device_id@));
                all.take(i).map_values(|g: FileInfo| g.device_id@).lemma_push_to_set_commute(all[i].device_id@);
            }
            let FileInfo { path, device_id, date_folder: _, time } = f;
            insert_sorted(&mut devices, device_id.clone());
            add_to_slices(&mut slices, time, device_id, path);
        }
        proof {
            assert(all.take(all.len() as int) =~= all);
        }
        Ok(TimeAlignedDataset { devices, time_slices: slices, samples_per_minute })
    }

    /// The number of devices.
    pub fn num_devices(&self) -> (n: usize)
        ensures
            n == self.devices@.len(),
    {
        self.devices.len()
    }

    /// The number of time slices.
    pub fn num_time_slices(&self) -> (n: usize)
        ensures
            n == self.time_slices@.len(),
    {
        self.time_slices.len()
    }

    /// The times of the first and the last slice, if there is one.
    pub fn time_range(&self) -> (r: Option<(UtcTime, UtcTime)>)
        ensures
            self.time_slices@.len() == 0 <==> r is None,
            r matches Some((a, b)) ==> a@ == self.time_slices@[0].time@ && b@
                == self.time_slices@.last().time@,
    {
        let n = self.time_slices.len();
        if n == 0 {
            None
        } else {
            Some((self.time_slices[0].time, self.time_slices[n - 1].time))
        }
    }
}


/// A name of the form `YYYY-MM-DD` with every field zero-padded: ten
/// characters, dashes at positions 4 and 7, digits elsewhere.
pub open spec fn padded_date(n: Seq<char>) -> bool {
    &&& n.len() == 10
    &&& n[4] == '-'
    &&& n[7] == '-'
    &&& all_digits(n.subrange(0, 4))
    &&& all_digits(n.subrange(5, 7))
    &&& all_digits(n.subrange(8, 10))
}

/// Whether a folder name is a date written `YYYY-MM-DD`: zero-padded, and
/// a date chrono reads with that format.
pub open spec fn is_date_name(n: Seq<char>) -> bool {
    padded_date(n) && spec_parse_date(n, date_folder_format()) is Some
}

/// The year, month and day a `YYYY-MM-DD` name writes.
pub open spec fn date_fields(n: Seq<char>) -> (nat, nat, nat) {
    (digits_value(n.subrange(0, 4)), digits_value(n.subrange(5, 7)), digits_value(n.subrange(8, 10)))
}

/// Whether the date `a` names comes before the date `b` names.
pub open spec fn date_before(a: Seq<char>, b: Seq<char>) -> bool {
    let (ya, ma, da) = date_fields(a);
    let (yb, mb, db) = date_fields(b);
    ya < yb || (ya == yb && (ma < mb || (ma == mb && da < db)))
}

/// The first position where two sequences of the same length in order
/// differ.
proof fn lemma_first_difference(a: Seq<char>, b: Seq<char>) -> (k: int)
    requires
        chars_lt(a, b),
        a.len() == b.len(),
    ensures
        0 <= k < a.len(),
        forall|i: int| 0 <= i < k ==> a[i] == b[i],
        a[k] < b[k],
    decreases a.len(),
{
    if a[0] != b[0] {
        0
    } else {
        let k = lemma_first_difference(a.drop_first(), b.drop_first());
        assert forall|i: int| 0 <= i < k + 1 implies a[i] == b[i] by {
            if i > 0 {
                assert(a[i] == a.drop_first()[i - 1]);
                assert(b[i] == b.drop_first()[i - 1]);
            }
        }
        assert(a[k + 1] == a.drop_first()[k]);
        assert(b[k + 1] == b.drop_first()[k]);
        k + 1
    }
}

/// Of two digit strings of one length that first differ at `k`, the one
/// with the smaller digit there has the smaller value.
proof fn lemma_digits_order(s: Seq<char>, t: Seq<char>, k: int)
    requires
        s.len() == t.len(),
        all_digits(s),
        all_digits(t),
        0 <= k < s.len(),
        forall|i: int| 0 <= i < k ==> s[i] == t[i],
        s[k] < t[k],
    ensures
        digits_value(s) < digits_value(t),
    decreases s.len(),
{
    let n = s.len();
    let sd = s.drop_last();
    let td = t.drop_last();
    assert(is_digit(s[n - 1]) && is_digit(t[n - 1]));
    if k == n - 1 {
        assert(sd =~= td);
    } else {
        assert forall|i: int| 0 <= i < sd.len() implies is_digit(#[trigger] sd[i]) by {
            assert(sd[i] == s[i]);
        }
        assert forall|i: int| 0 <= i < td.len() implies is_digit(#[trigger] td[i]) by {
            assert(td[i] == t[i]);
        }
        lemma_digits_order(sd, td, k);
    }
}

/// Sequences that agree before position `k` agree on any stretch before it.
proof fn lemma_equal_fields(a: Seq<char>, b: Seq<char>, from: int, to: int, k: int)
    requires
        0 <= from <= to <= k,
        to <= a.len(),
        to <= b.len(),
        forall|i: int| 0 <= i < k ==> a[i] == b[i],
    ensures
        a.subrange(from, to) == b.subrange(from, to),
{
    assert(a.subrange(from, to) =~= b.subrange(from, to));
}

/// For zero-padded `YYYY-MM-DD` names, the order of the text is the
/// order of the dates.
pub proof fn lemma_padded_dates_order(a: Seq<char>, b: Seq<char>)
    requires
        padded_date(a),
        padded_date(b),
        chars_lt(a, b),
    ensures
        date_before(a, b),
{
    let k = lemma_first_difference(a, b);
    if k < 4 {
        assert(a.subrange(0, 4)[k] == a[k] && b.subrange(0, 4)[k] == b[k]);
        assert forall|i: int| 0 <= i < k implies a.subrange(0, 4)[i] == b.subrange(0, 4)[i] by {
            assert(a.subrange(0, 4)[i] == a[i]);
            assert(b.subrange(0, 4)[i] == b[i]);
        }
        lemma_digits_order(a.subrange(0, 4), b.subrange(0, 4), k);
    } else if k < 7 {
        lemma_equal_fields(a, b, 0, 4, k);
        let j = k - 5;
        assert(a.subrange(5, 7)[j] == a[k] && b.subrange(5, 7)[j] == b[k]);
        assert forall|i: int| 0 <= i < j implies a.subrange(5, 7)[i] == b.subrange(5, 7)[i] by {
            assert(a.subrange(5, 7)[i] == a[i + 5]);
            assert(b.subrange(5, 7)[i] == b[i + 5]);
        }
        lemma_digits_order(a.subrange(5, 7), b.subrange(5, 7), j);
    } else {
        lemma_equal_fields(a, b, 0, 4, k);
        lemma_equal_fields(a, b, 5, 7, k);
        let j = k - 8;
        assert(a.subrange(8, 10)[j] == a[k] && b.subrange(8, 10)[j] == b[k]);
        assert forall|i: int| 0 <= i < j implies a.subrange(8, 10)[i] == b.subrange(8, 10)[i] by {
            assert(a.subrange(8, 10)[i] == a[i + 8]);
            assert(b.subrange(8, 10)[i] == b[i + 8]);
        }
        lemma_digits_order(a.subrange(8, 10), b.subrange(8, 10), j);
    }
}

fn digits_in(s: &[char], from: usize, to: usize) -> (b: bool)
    requires
        from <= to <= s@.len(),
    ensures
        b == all_digits(s@.subrange(from as int, to as int)),
{
    let mut i = from;
    while i < to
        invariant
            from <= i <= to <= s@.len(),
            forall|k: int| from <= k < i ==> is_digit(#[trigger] s@[k]),
        decreases to - i,
    {
        if !('0' <= s[i] && s[i] <= '9') {
            assert(s@.subrange(from as int, to as int)[i - from] == s@[i as int]);
            return false;
        }
        i = i + 1;
    }
    assert forall|k: int| 0 <= k < to - from implies is_digit(#[trigger] s@.subrange(from as int, to as int)[k]) by {
        assert(s@.subrange(from as int, to as int)[k] == s@[from + k]);
    }
    true
}

/// Whether a name is written `YYYY-MM-DD` with every field zero-padded.
pub fn is_padded_date(n: &str) -> (b: bool)
    ensures
        b == padded_date(n@),
{
    let c = chars_of(n);
    c.len() == 10 && c[4] == '-' && c[7] == '-' && digits_in(c.as_slice(), 0, 4) && digits_in(
        c.as_slice(),
        5,
        7,
    ) && digits_in(c.as_slice(), 8, 10)
}

/// The names, each once, in increasing order (the device folders found
/// under all the date folders).
pub fn sorted_names(names: Vec<String>) -> (r: Vec<String>)
    ensures
        strictly_sorted(strings_view(r@)),
        strings_view(r@).to_set() == strings_view(names@).to_set(),
{
    let ghost all = strings_view(names@);
    let mut out: Vec<String> = Vec::new();
    proof {
        assert(all.take(0).to_set() =~= strings_view(out@).to_set());
    }
    for n in it: names
        invariant
            all == strings_view(it.seq()),
            strictly_sorted(strings_view(out@)),
            strings_view(out@).to_set() == all.take(it.index()).to_set(),
    {
        let ghost i = it.index();
        proof {
            assert(all.take(i + 1) =~= all.take(i).push(n@));
            all.take(i).lemma_push_to_set_commute(n@);
        }
        insert_sorted(&mut out, n);
    }
    proof {
        assert(all.take(all.len() as int) =~= all);
    }
    out
}

/// The names that are dates written `YYYY-MM-DD`, each once, in
/// increasing order of date (the date folders under the root).
pub fn date_folder_names(names: Vec<String>) -> (r: Vec<String>)
    ensures
        strictly_sorted(strings_view(r@)),
        strings_view(r@).to_set() == strings_view(names@).filter(|n: Seq<char>| is_date_name(n)).to_set(),
        forall|i: int, j: int| 0 <= i < j < r@.len() ==> date_before(#[trigger] r@[i]@, #[trigger] r@[j]@),
{
    let ghost all = strings_view(names@);
    let ghost pred = |n: Seq<char>| is_date_name(n);
    let mut out: Vec<String> = Vec::new();
    proof {
        assert(all.take(0).filter(pred) =~= Seq::<Seq<char>>::empty());
        assert(all.take(0).filter(pred).to_set() =~= strings_view(out@).to_set());
    }
    for n in it: names
        invariant
            all == strings_view(it.seq()),
            pred == (|n: Seq<char>| is_date_name(n)),
            strictly_sorted(strings_view(out@)),
            strings_view(out@).to_set() == all.take(it.index()).filter(pred).to_set(),
            forall|q: int| 0 <= q < out@.len() ==> padded_date(#[trigger] out@[q]@),
    {
        let ghost i = it.index();
        proof {
            assert(all.take(i + 1) =~= all.take(i).push(n@));
            all.take(i).lemma_filter_push(n@, pred);
        }
        if is_padded_date(n.as_str()) && parse_date(n.as_str(), "%Y-%m-%d").is_some() {
            proof {
                reveal_strlit("%Y-%m-%d");
                all.take(i).filter(pred).lemma_push_to_set_commute(n@);
            }
            let ghost before = out@;
            let ghost nv = n@;
            insert_sorted(&mut out, n);
            proof {
                assert forall|q: int| 0 <= q < out@.len() implies padded_date(#[trigger] out@[q]@) by {
                    assert(strings_view(out@).to_set().contains(out@[q]@)) by {
                        assert(strings_view(out@)[q] == out@[q]@);
                    }
                    assert(strings_view(before).to_set().insert(nv).contains(out@[q]@));
                    if out@[q]@ != nv {
                        let p = choose|p: int| 0 <= p < strings_view(before).len() && strings_view(before)[p] == out@[q]@;
                        assert(padded_date(before[p]@));
                    }
                }
            }
        } else {
            proof {
                reveal_strlit("%Y-%m-%d");
            }
        }
    }
    proof {
        assert(all.take(all.len() as int) =~= all);
        assert forall|i: int, j: int| 0 <= i < j < out@.len() implies date_before(#[trigger] out@[i]@, #[trigger] out@[j]@) by {
            assert(strings_view(out@)[i] == out@[i]@);
            assert(strings_view(out@)[j] == out@[j]@);
            lemma_padded_dates_order(out@[i]@, out@[j]@);
        }
    }
    out
}

/// The minutes grouped are those of the recordings.
pub proof fn lemma_grouped_minutes(files: Seq<FileInfo>, ts: int)
    ensures
        grouped(files).contains_key(ts) <==> exists|i: int| 0 <= i < files.len() && (#[trigger] files[i]).time@.timestamp == ts,
    decreases files.len(),
{
    if files.len() > 0 {
        let r = files.drop_last();
        lemma_grouped_minutes(r, ts);
        if grouped(r).contains_key(ts) {
            let i = choose|i: int| 0 <= i < r.len() && (#[trigger] r[i]).time@.timestamp == ts;
            assert(files[i] == r[i]);
        }
        if exists|i: int| 0 <= i < files.len() && (#[trigger] files[i]).time@.timestamp == ts {
            let i = choose|i: int| 0 <= i < files.len() && (#[trigger] files[i]).time@.timestamp == ts;
            if i < r.len() {
                assert(r[i] == files[i]);
            }
        }
    }
}

/// The time range of a dataset spans its recordings: its first slice is
/// the minute of the earliest recording and its last slice that of the
/// latest.
pub proof fn lemma_time_range_spans(files: Seq<FileInfo>, slices: Seq<TimeSlice>)
    requires
        files.len() > 0,
        slices_wf(slices),
        assoc_map(slices_pairs(slices)) == grouped(files),
    ensures
        slices.len() > 0,
        forall|i: int| 0 <= i < files.len() ==> slices[0].time@.timestamp <= (#[trigger] files[i]).time@.timestamp
            <= slices.last().time@.timestamp,
        exists|i: int| 0 <= i < files.len() && (#[trigger] files[i]).time@.timestamp == slices[0].time@.timestamp,
        exists|i: int| 0 <= i < files.len() && (#[trigger] files[i]).time@.timestamp == slices.last().time@.timestamp,
{
    let pairs = slices_pairs(slices);
    lemma_slices_keys_unique(slices);
    let t0 = files[0].time@.timestamp;
    lemma_grouped_minutes(files, t0);
    lemma_assoc_dom(pairs, t0);
    assert(slices.len() > 0);
    assert forall|i: int| 0 <= i < files.len() implies slices[0].time@.timestamp <= (#[trigger] files[i]).time@.timestamp
        <= slices.last().time@.timestamp by {
        let t = files[i].time@.timestamp;
        lemma_grouped_minutes(files, t);
        lemma_assoc_dom(pairs, t);
        let k = choose|k: int| 0 <= k < pairs.len() && #[trigger] pairs[k].0 == t;
        assert(pairs[k].0 == slices[k].time@.timestamp);
        if k > 0 {
            assert(slices[0].time@.timestamp < slices[k].time@.timestamp);
        }
        if k < slices.len() - 1 {
            assert(slices[k].time@.timestamp < slices[slices.len() - 1].time@.timestamp);
        }
    }
    let first = slices[0].time@.timestamp;
    let last = slices.last().time@.timestamp;
    lemma_assoc_get(pairs, 0);
    lemma_grouped_minutes(files, first);
    lemma_assoc_get(pairs, slices.len() - 1);
    lemma_grouped_minutes(files, last);
}

} // verus!
