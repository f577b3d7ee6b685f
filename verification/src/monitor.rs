use crate::assoc::{assoc_map, keys_unique, lemma_assoc_dom, lemma_assoc_get, lemma_assoc_insert, lemma_assoc_remove};
use crate::dataset::{add_to_slices, slice_map, slice_pairs, slices_pairs, slices_wf, TimeSlice};
use crate::order::{insert_sorted, strictly_sorted, strings_view};
use crate::text::{append_chars, chars_eq, chars_of, string_of};
use crate::time::{format_utc, spec_utc_from_timestamp, utc_text, CivilTime, UtcTime};
use crate::header::SegyRevision;
use std::path::PathBuf;
use vstd::prelude::*;

verus! {

/// How the live monitor groups minutes into output files.
#[derive(Debug, Clone, Copy)]
pub enum OutputMode {
    /// One file per minute.
    PerMinute,
    /// One file per this many minutes, aligned to multiples of it.
    Duration(u32),
}

/// What the live monitor reports to its user.
#[derive(Debug)]
pub enum MonitorEvent {
    Log(String),
    Status { processed: u64, generated: u64, buffered: u64 },
    FileGenerated(PathBuf),
    LateDataWarning { file: String, time: String },
    LateDataSaved(String),
    Done(Result<(), String>),
}

/// What became of a recording the monitor found.
#[derive(Debug, Clone, Copy, PartialEq, Eq, Structural)]
pub enum Arrival {
    /// Its minute was already written out.
    Late,
    /// It joined its minute's slice; `new_device` tells whether its device
    /// was seen for the first time.
    Buffered { new_device: bool },
}

/// The decisions the live monitor keeps between polls.
#[derive(Debug)]
pub struct MonitorState {
    /// The minutes waiting to be written, in increasing order of time.
    pub buffer: Vec<TimeSlice>,
    /// The minutes already written.
    pub flushed: Vec<i64>,
    /// The windows of the groups already written: each starts at a time
    /// and lasts a number of minutes.
    pub closed: Vec<(i64, u32)>,
    /// Every device seen, in increasing order.
    pub devices: Vec<String>,
    /// The number of files written.
    pub generated: u64,
    /// The recordings already taken, by the text of their paths.
    pub seen: Vec<String>,
    /// The number of recordings taken.
    pub processed: u64,
}

/// The minutes waiting to be written, each with its map from device to
/// recording.
pub open spec fn waiting(st: MonitorState) -> Map<int, Map<Seq<char>, PathBuf>> {
    assoc_map(slices_pairs(st.buffer@))
}

/// Whether the minute starting at `ts` was itself written.
pub open spec fn minute_written(st: MonitorState, ts: int) -> bool {
    st.flushed@.contains(ts as i64)
}

/// Whether `ts` falls in the window of a group already written.
pub open spec fn in_closed(st: MonitorState, ts: int) -> bool {
    exists|i: int| 0 <= i < st.closed@.len() && #[trigger] st.closed@[i].0 <= ts < st.closed@[i].0 + st.closed@[i].1 * 60
}

/// Whether a recording for the minute starting at `ts` comes too late: that
/// minute was written, or it falls in the window of a group written.
pub open spec fn was_flushed(st: MonitorState, ts: int) -> bool {
    minute_written(st, ts) || in_closed(st, ts)
}

/// The written minutes and windows of `before` are all still written in
/// `after`.
pub open spec fn keeps_written(before: MonitorState, after: MonitorState) -> bool {
    &&& forall|t: i64| #[trigger] before.flushed@.contains(t) ==> after.flushed@.contains(t)
    &&& before.closed@.is_prefix_of(after.closed@)
}

/// What a recording of `device` at `path` for the minute starting at
/// `time` does to the minutes and devices: when the minute was written, the
/// answer is `Late` and they do not change; otherwise the recording joins
/// its minute, replacing an earlier one of the device there, and the device
/// joins the devices.
pub open spec fn arrival_core(
    before: MonitorState,
    after: MonitorState,
    time: UtcTime,
    device: Seq<char>,
    path: PathBuf,
    a: Arrival,
) -> bool {
    let m = waiting(before);
    let ts = time@.timestamp;
    &&& after.flushed == before.flushed
    &&& after.closed == before.closed
    &&& after.generated == before.generated
    &&& if was_flushed(before, ts) {
        a == Arrival::Late && after.buffer == before.buffer && after.devices == before.devices
    } else {
        &&& a == Arrival::Buffered { new_device: !strings_view(before.devices@).contains(device) }
        &&& waiting(after) == m.insert(
            ts,
            (if m.contains_key(ts) { m[ts] } else { Map::empty() }).insert(device, path),
        )
        &&& strings_view(after.devices@).to_set() == strings_view(before.devices@).to_set().insert(device)
    }
}

/// What taking in a recording of `device` at `path` for the minute
/// starting at `time` does (see `arrival_core`); the recordings taken are
/// left as they are.
pub open spec fn arrival(
    before: MonitorState,
    after: MonitorState,
    time: UtcTime,
    device: Seq<char>,
    path: PathBuf,
    a: Arrival,
) -> bool {
    &&& arrival_core(before, after, time, device, path, a)
    &&& after.seen == before.seen
    &&& after.processed == before.processed
}

/// What recording a file written out of the minutes `times` does: they
/// leave the buffer and count as written, and one more file counts as
/// generated.
pub open spec fn file_recorded(before: MonitorState, after: MonitorState, times: Seq<i64>) -> bool {
    &&& forall|t: i64| #[trigger] after.flushed@.contains(t) <==> (before.flushed@.contains(t) || listed(times, t as int))
    &&& waiting(after) == waiting(before).remove_keys(
        Set::new(|k: int| listed(times, k)),
    )
    &&& after.closed == before.closed
    &&& after.devices == before.devices
    &&& after.generated == before.generated + 1
    &&& after.seen == before.seen
    &&& after.processed == before.processed
}

/// What recording a file written out of the group of `dur` minutes
/// starting at `start` does: its minutes `times` leave the buffer and count
/// as written, the whole window of the group counts as written, and one
/// more file counts as generated.
pub open spec fn group_recorded(
    before: MonitorState,
    after: MonitorState,
    times: Seq<i64>,
    start: i64,
    dur: u32,
) -> bool {
    &&& forall|t: i64| #[trigger] after.flushed@.contains(t) <==> (before.flushed@.contains(t) || listed(times, t as int))
    &&& waiting(after) == waiting(before).remove_keys(
        Set::new(|k: int| listed(times, k)),
    )
    &&& after.closed@ == before.closed@.push((start, dur))
    &&& after.devices == before.devices
    &&& after.generated == before.generated + 1
    &&& after.seen == before.seen
    &&& after.processed == before.processed
}

impl MonitorState {
    /// Slices in order with one recording per device, none of a minute
    /// already written, and the devices in strictly increasing order.
    pub open spec fn wf(&self) -> bool {
        &&& slices_wf(self.buffer@)
        &&& strictly_sorted(strings_view(self.devices@))
        &&& forall|k: int| #[trigger] assoc_map(slices_pairs(self.buffer@)).contains_key(k) ==> !minute_written(*self, k)
        &&& self.processed == self.seen@.len()
        &&& strings_view(self.seen@).no_duplicates()
    }

    /// The state before any poll.
    pub fn new() -> (st: MonitorState)
        ensures
            st.wf(),
            st.buffer@.len() == 0,
            st.flushed@.len() == 0,
            st.closed@.len() == 0,
            st.devices@.len() == 0,
            st.generated == 0,
            st.seen@.len() == 0,
            st.processed == 0,
    {
        MonitorState {
            buffer: Vec::new(),
            flushed: Vec::new(),
            closed: Vec::new(),
            devices: Vec::new(),
            generated: 0,
            seen: Vec::new(),
            processed: 0,
        }
    }

    /// Whether a recording for the minute starting at `ts` comes too late:
    /// that minute, or the window of a group holding it, was written.
    pub fn is_flushed(&self, ts: i64) -> (b: bool)
        ensures
            b == was_flushed(*self, ts as int),
    {
        if self.minute_written(ts) {
            return true;
        }
        let mut i: usize = 0;
        while i < self.closed.len()
            invariant
                i <= self.closed@.len(),
                forall|k: int| 0 <= k < i ==> !(#[trigger] self.closed@[k].0 <= ts < self.closed@[k].0 + self.closed@[k].1 * 60),
            decreases self.closed.len() - i,
        {
            let (a, d) = self.closed[i];
            if (a as i128) <= (ts as i128) && (ts as i128) < (a as i128) + (d as i128) * 60 {
                assert(self.closed@[i as int].0 <= ts < self.closed@[i as int].0 + self.closed@[i as int].1 * 60);
                return true;
            }
            i = i + 1;
        }
        false
    }

    /// Whether the minute starting at `ts` was itself written.
    pub fn minute_written(&self, ts: i64) -> (b: bool)
        ensures
            b == self.flushed@.contains(ts),
    {
        let mut i: usize = 0;
        while i < self.flushed.len()
            invariant
                i <= self.flushed@.len(),
                forall|k: int| 0 <= k < i ==> self.flushed@[k] != ts,
            decreases self.flushed.len() - i,
        {
            if self.flushed[i] == ts {
                return true;
            }
            i = i + 1;
        }
        false
    }

    /// Takes in a recording found on a poll: late when its minute was
    /// already written (nothing changes then); otherwise it joins its
    /// minute's slice, replacing an earlier recording of the device in that
    /// minute, and its device joins the devices.
    pub fn arrive(&mut self, time: UtcTime, device: String, path: PathBuf) -> (a: Arrival)
        requires
            old(self).wf(),
        ensures
            keeps_written(*old(self), *final(self)),
            final(self).wf(),
            arrival(*old(self), *final(self), time, device@, path, a),
    {
        if self.is_flushed(time.timestamp()) {
            return Arrival::Late;
        }
        let new_device = insert_sorted(&mut self.devices, device.clone());
        add_to_slices(&mut self.buffer, time, device, path);
        Arrival::Buffered { new_device }
    }
}

/// Whether a minute starting at `ts` is ready at `now`: its minute and the
/// waiting window after it are over.
pub open spec fn ready_at(ts: int, now: int, wait: int) -> bool {
    now > ts + 60 + wait
}

/// The times of slices.
pub open spec fn slice_times(v: Seq<TimeSlice>) -> Seq<CivilTime> {
    v.map_values(|s: TimeSlice| s.time@)
}

/// The instants of slices.
pub open spec fn slice_instants(v: Seq<TimeSlice>) -> Seq<UtcTime> {
    v.map_values(|s: TimeSlice| s.time)
}

/// The instants of the slices of `v` that are ready at `now` with a
/// waiting window of `wait` seconds, in their order.
pub open spec fn ready_of(v: Seq<TimeSlice>, now: int, wait: int) -> Seq<UtcTime> {
    slice_instants(v).filter(|t: UtcTime| ready_at(t@.timestamp, now, wait))
}

/// The views of times.
pub open spec fn times_view(v: Seq<UtcTime>) -> Seq<CivilTime> {
    v.map_values(|t: UtcTime| t@)
}

proof fn lemma_remove_slice_wf(v: Seq<TimeSlice>, j: int)
    requires
        slices_wf(v),
        0 <= j < v.len(),
    ensures
        slices_wf(v.remove(j)),
        slices_pairs(v.remove(j)) == slices_pairs(v).remove(j),
{
    let t = v.remove(j);
    assert forall|a: int, b: int| 0 <= a < b < t.len() implies (#[trigger] t[a]).time@.timestamp
        < (#[trigger] t[b]).time@.timestamp by {
        let a2 = if a < j { a } else { a + 1 };
        let b2 = if b < j { b } else { b + 1 };
        assert(t[a] == v[a2]);
        assert(t[b] == v[b2]);
    }
    assert forall|q: int| 0 <= q < t.len() implies keys_unique(slice_pairs((#[trigger] t[q]).files@)) by {
        let q2 = if q < j { q } else { q + 1 };
        assert(t[q] == v[q2]);
    }
    assert(slices_pairs(t) =~= slices_pairs(v).remove(j));
}

/// What taking the minute starting at `ts` out of the buffer does: it
/// leaves the buffer, and comes back when it was there; nothing else
/// changes.
pub open spec fn slice_taken(before: MonitorState, after: MonitorState, ts: int, r: Option<TimeSlice>) -> bool {
    &&& after.flushed == before.flushed
    &&& after.closed == before.closed
    &&& after.devices == before.devices
    &&& after.generated == before.generated
    &&& after.seen == before.seen
    &&& after.processed == before.processed
    &&& waiting(after) == waiting(before).remove(ts)
    &&& match r {
        Some(s) => waiting(before).contains_key(ts) && waiting(before)[ts] == slice_map(s) && s.time@.timestamp
            == ts,
        None => !waiting(before).contains_key(ts),
    }
}

/// What putting the minute `s` back into the buffer does: it waits again;
/// nothing else changes.
pub open spec fn slice_restored(before: MonitorState, after: MonitorState, s: TimeSlice) -> bool {
    &&& after.flushed == before.flushed
    &&& after.closed == before.closed
    &&& after.devices == before.devices
    &&& after.generated == before.generated
    &&& after.seen == before.seen
    &&& after.processed == before.processed
    &&& waiting(after) == waiting(before).insert(s.time@.timestamp, slice_map(s))
}

impl MonitorState {
    /// The times of the waiting minutes that are ready at `now` with a
    /// waiting window of `wait` seconds, in increasing order.
    pub fn ready_times(&self, now: i64, wait: i64) -> (r: Vec<UtcTime>)
        ensures
            times_view(r@) == slice_times(self.buffer@).filter(|c: CivilTime| ready_at(c.timestamp, now as int, wait as int)),
            r@ == ready_of(self.buffer@, now as int, wait as int),
    {
        let ghost pred = |c: CivilTime| ready_at(c.timestamp, now as int, wait as int);
        let ghost upred = |t: UtcTime| ready_at(t@.timestamp, now as int, wait as int);
        let ghost all = slice_times(self.buffer@);
        let ghost inst = slice_instants(self.buffer@);
        let mut r: Vec<UtcTime> = Vec::new();
        let mut i: usize = 0;
        assert(all.take(0).filter(pred) =~= Seq::<CivilTime>::empty());
        assert(inst.take(0).filter(upred) =~= Seq::<UtcTime>::empty());
        while i < self.buffer.len()
            invariant
                pred == (|c: CivilTime| ready_at(c.timestamp, now as int, wait as int)),
                upred == (|t: UtcTime| ready_at(t@.timestamp, now as int, wait as int)),
                all == slice_times(self.buffer@),
                inst == slice_instants(self.buffer@),
                i <= self.buffer@.len(),
                times_view(r@) == all.take(i as int).filter(pred),
                r@ == inst.take(i as int).filter(upred),
            decreases self.buffer.len() - i,
        {
            let t = self.buffer[i].time;
            proof {
                assert(all.take(i + 1) =~= all.take(i as int).push(t@));
                all.take(i as int).lemma_filter_push(t@, pred);
                assert(inst.take(i + 1) =~= inst.take(i as int).push(t));
                inst.take(i as int).lemma_filter_push(t, upred);
            }
            if (t.timestamp() as i128) + 60 + (wait as i128) < (now as i128) {
                let ghost before = times_view(r@);
                r.push(t);
                assert(times_view(r@) =~= before.push(t@));
            }
            i = i + 1;
        }
        assert(all.take(all.len() as int) =~= all);
        assert(inst.take(inst.len() as int) =~= inst);
        r
    }

    /// Takes the waiting minute starting at `ts` out of the buffer.
    pub fn take_slice(&mut self, ts: i64) -> (r: Option<TimeSlice>)
        requires
            old(self).wf(),
        ensures
            keeps_written(*old(self), *final(self)),
            final(self).wf(),
            slice_taken(*old(self), *final(self), ts as int, r),
            r matches Some(sl) ==> keys_unique(slice_pairs(sl.files@)),
    {
        let ghost pairs = slices_pairs(self.buffer@);
        proof {
            crate::dataset::lemma_slices_keys_unique(self.buffer@);
        }
        let mut j: usize = 0;
        while j < self.buffer.len()
            invariant
                *self == *old(self),
                self.wf(),
                pairs == slices_pairs(self.buffer@),
                keys_unique(pairs),
                j <= self.buffer@.len(),
                forall|k: int| 0 <= k < j ==> pairs[k].0 != ts,
            decreases self.buffer.len() - j,
        {
            if self.buffer[j].time.timestamp() == ts {
                proof {
                    lemma_assoc_get(pairs, j as int);
                    lemma_assoc_remove(pairs, j as int);
                    lemma_remove_slice_wf(self.buffer@, j as int);
                }
                let s = self.buffer.remove(j);
                return Some(s);
            }
            j = j + 1;
        }
        proof {
            lemma_assoc_dom(pairs, ts as int);
            assert(assoc_map(pairs).remove(ts as int) =~= assoc_map(pairs));
        }
        None
    }

    /// Puts a minute back into the buffer after it failed to be written.
    pub fn restore_slice(&mut self, s: TimeSlice)
        requires
            old(self).wf(),
            !minute_written(*old(self), s.time@.timestamp),
            keys_unique(slice_pairs(s.files@)),
            !waiting(*old(self)).contains_key(s.time@.timestamp),
        ensures
            keeps_written(*old(self), *final(self)),
            final(self).wf(),
            slice_restored(*old(self), *final(self), s),
    {
        let ts = s.time.timestamp();
        let k = crate::dataset::slice_position(&self.buffer, ts);
        let ghost old_v = self.buffer@;
        let ghost pairs = slices_pairs(self.buffer@);
        proof {
            crate::dataset::lemma_slices_keys_unique(self.buffer@);
            assert forall|i: int| 0 <= i < pairs.len() implies #[trigger] pairs[i].0 != ts by {
                if pairs[i].0 == ts {
                    lemma_assoc_get(pairs, i);
                }
            }
            lemma_assoc_insert(pairs, k as int, ts as int, slice_map(s));
        }
        let ghost sv = s;
        self.buffer.insert(k, s);
        proof {
            assert(slices_pairs(self.buffer@) =~= pairs.insert(k as int, (ts as int, slice_map(sv))));
            assert forall|i: int, j: int| 0 <= i < j < self.buffer@.len() implies (#[trigger] self.buffer@[i]).time@.timestamp
                < (#[trigger] self.buffer@[j]).time@.timestamp by {
                let i2 = if i < k { i } else { i - 1 };
                let j2 = if j < k { j } else { j - 1 };
                if i != k {
                    assert(self.buffer@[i] == old_v[i2]);
                }
                if j != k {
                    assert(self.buffer@[j] == old_v[j2]);
                }
                if i != k && j != k {
                    assert(old_v[i2].time@.timestamp < old_v[j2].time@.timestamp);
                } else if i == k {
                    assert(pairs[j2].0 == old_v[j2].time@.timestamp);
                    assert(old_v[j2].time@.timestamp != ts);
                } else {
                    assert(pairs[i2].0 == old_v[i2].time@.timestamp);
                    assert(old_v[i2].time@.timestamp != ts);
                }
            }
            assert forall|q: int| 0 <= q < self.buffer@.len() implies keys_unique(slice_pairs((#[trigger] self.buffer@[q]).files@)) by {
                if q < k {
                    assert(self.buffer@[q] == old_v[q]);
                } else if q > k {
                    assert(self.buffer@[q] == old_v[q - 1]);
                }
            }
        }
    }
}


/// Whether `ts` is one of `times`.
pub open spec fn listed(times: Seq<i64>, ts: int) -> bool {
    exists|j: int| 0 <= j < times.len() && times[j] as int == ts
}

impl MonitorState {
    /// Records that the minute starting at `ts` was written: it leaves the
    /// buffer and counts as written from now on.
    pub fn mark_flushed(&mut self, ts: i64)
        requires
            old(self).wf(),
        ensures
            keeps_written(*old(self), *final(self)),
            final(self).wf(),
            forall|t: i64| #[trigger] final(self).flushed@.contains(t) <==> (old(self).flushed@.contains(t) || t == ts),
            waiting(*final(self)) == waiting(*old(self)).remove(ts as int),
            final(self).closed == old(self).closed,
            final(self).devices == old(self).devices,
            final(self).generated == old(self).generated,
            final(self).seen == old(self).seen,
            final(self).processed == old(self).processed,
    {
        let _ = self.take_slice(ts);
        if !self.minute_written(ts) {
            let ghost before = self.flushed@;
            self.flushed.push(ts);
            proof {
                assert forall|t: i64| #[trigger] self.flushed@.contains(t) <==> (before.contains(t) || t == ts) by {
                    if before.contains(t) {
                        let j = choose|j: int| 0 <= j < before.len() && before[j] == t;
                        assert(self.flushed@[j] == t);
                    }
                    if t == ts {
                        assert(self.flushed@[before.len() as int] == t);
                    }
                    if self.flushed@.contains(t) {
                        let j = choose|j: int| 0 <= j < self.flushed@.len() && self.flushed@[j] == t;
                        if j < before.len() {
                            assert(before[j] == t);
                        }
                    }
                }
                let pairs = slices_pairs(self.buffer@);
                assert forall|k: int| #[trigger] assoc_map(pairs).contains_key(k) implies !minute_written(*self, k) by {
                    lemma_assoc_dom(pairs, k);
                    let i = choose|i: int| 0 <= i < pairs.len() && #[trigger] pairs[i].0 == k;
                    assert(pairs[i].0 == self.buffer@[i].time@.timestamp);
                    crate::time::lemma_timestamp_bounds(self.buffer@[i].time);
                }
            }
        }
    }

    /// Records one file written out of the minutes starting at `times`:
    /// they leave the buffer and count as written, and one more file counts
    /// as generated.
    pub fn record_file(&mut self, times: &[i64])
        requires
            old(self).wf(),
            old(self).generated < u64::MAX,
        ensures
            keeps_written(*old(self), *final(self)),
            final(self).wf(),
            file_recorded(*old(self), *final(self), times@),
    {
        let ghost m0 = assoc_map(slices_pairs(self.buffer@));
        let ghost f0 = self.flushed@;
        let mut i: usize = 0;
        assert(m0.remove_keys(Set::new(|k: int| listed(times@.take(0), k))) =~= m0);
        while i < times.len()
            invariant
                self.wf(),
                i <= times@.len(),
                self.devices == old(self).devices,
                self.closed == old(self).closed,
                self.generated == old(self).generated,
                self.seen == old(self).seen,
                self.processed == old(self).processed,
                m0 == waiting(*old(self)),
                f0 == old(self).flushed@,
                assoc_map(slices_pairs(self.buffer@)) == m0.remove_keys(Set::new(|k: int| listed(times@.take(i as int), k))),
                forall|t: i64| #[trigger] self.flushed@.contains(t) <==> (f0.contains(t) || listed(times@.take(i as int), t as int)),
            decreases times.len() - i,
        {
            let ts = times[i];
            let ghost prev = assoc_map(slices_pairs(self.buffer@));
            let ghost fprev = self.flushed@;
            self.mark_flushed(ts);
            proof {
                let a = times@.take(i as int);
                let b = times@.take(i + 1);
                assert forall|k: int| listed(b, k) <==> (listed(a, k) || k == ts as int) by {
                    if listed(b, k) {
                        let j = choose|j: int| 0 <= j < b.len() && b[j] as int == k;
                        if j < i {
                            assert(a[j] == b[j]);
                        }
                    }
                    if listed(a, k) {
                        let j = choose|j: int| 0 <= j < a.len() && a[j] as int == k;
                        assert(b[j] == a[j]);
                    }
                    if k == ts as int {
                        assert(b[i as int] == ts);
                    }
                }
                assert(m0.remove_keys(Set::new(|k: int| listed(b, k))) =~= prev.remove(ts as int));
                assert forall|t: i64| #[trigger] self.flushed@.contains(t) <==> (f0.contains(t) || listed(b, t as int)) by {
                    assert(listed(b, t as int) <==> (listed(a, t as int) || t as int == ts as int));
                    assert(fprev.contains(t) <==> (f0.contains(t) || listed(a, t as int)));
                }
            }
            i = i + 1;
        }
        proof {
            assert(times@.take(times@.len() as int) =~= times@);
        }
        self.generated = self.generated + 1;
    }
}

impl MonitorState {
    /// Records one file written out of the group of `dur` minutes starting
    /// at `start`, holding the minutes `times`: they leave the buffer and
    /// count as written, and so does the whole window of the group, so
    /// that a recording that comes later for any minute of it is late.
    pub fn record_group(&mut self, start: i64, dur: u32, times: &[i64])
        requires
            old(self).wf(),
            old(self).generated < u64::MAX,
        ensures
            keeps_written(*old(self), *final(self)),
            final(self).wf(),
            group_recorded(*old(self), *final(self), times@, start, dur),
    {
        self.record_file(times);
        self.closed.push((start, dur));
    }
}

/// What became of a recording handed to `take_in`.
#[derive(Debug, Clone, Copy, PartialEq, Eq, Structural)]
pub enum Taken {
    /// Its path was taken before; nothing changes.
    Seen,
    /// It joined its minute's slice; `new_device` tells whether its device
    /// was seen for the first time.
    Buffered { new_device: bool },
    /// It came after its minute was written, and late recordings are
    /// dropped with a warning.
    Warned,
    /// It came after its minute was written, and late recordings are kept
    /// in a file of their own.
    Saved,
}

/// The answer `arrive` gives for a recording taken as `t`.
pub open spec fn arrival_of(t: Taken) -> Arrival {
    match t {
        Taken::Buffered { new_device } => Arrival::Buffered { new_device },
        _ => Arrival::Late,
    }
}

/// What taking in the recording at the path `key` (its path's text) for
/// the minute starting at `time` does: a path taken before is skipped;
/// otherwise the path is taken, once, and the recording arrives (see
/// `arrival_core`); a late one is `Warned` when late recordings are
/// dropped, else `Saved`.
pub open spec fn took(
    before: MonitorState,
    after: MonitorState,
    key: Seq<char>,
    time: UtcTime,
    device: Seq<char>,
    path: PathBuf,
    ignore_late: bool,
    t: Taken,
) -> bool {
    if strings_view(before.seen@).contains(key) {
        t == Taken::Seen && after == before
    } else {
        &&& strings_view(after.seen@) == strings_view(before.seen@).push(key)
        &&& after.processed == before.processed + 1
        &&& t != Taken::Seen
        &&& arrival_core(before, after, time, device, path, arrival_of(t))
        &&& was_flushed(before, time@.timestamp) ==> t == (if ignore_late { Taken::Warned } else { Taken::Saved })
    }
}

/// Found recordings as (path text, minute, device, path), viewed.
pub open spec fn found_view(v: Seq<(String, UtcTime, String, PathBuf)>) -> Seq<(Seq<char>, UtcTime, Seq<char>, PathBuf)> {
    v.map_values(|f: (String, UtcTime, String, PathBuf)| (f.0@, f.1, f.2@, f.3))
}

/// Taking in the recordings `items` one after another, in order (see
/// `took`), leads from `before` to `after` and answers `ts`, one answer
/// for each.
pub open spec fn took_all(
    before: MonitorState,
    after: MonitorState,
    items: Seq<(Seq<char>, UtcTime, Seq<char>, PathBuf)>,
    ignore_late: bool,
    ts: Seq<Taken>,
) -> bool
    decreases items.len(),
{
    if items.len() == 0 {
        ts.len() == 0 && after == before
    } else {
        &&& ts.len() == items.len()
        &&& exists|mid: MonitorState|
            took_all(before, mid, items.drop_last(), ignore_late, ts.drop_last()) && #[trigger] took(
                mid,
                after,
                items.last().0,
                items.last().1,
                items.last().2,
                items.last().3,
                ignore_late,
                ts.last(),
            )
    }
}

/// The files to write when the monitor stops: in the mode of one file per
/// minute, each waiting minute, in order; in the grouping mode, one file
/// starting at the first waiting minute and holding them all.
pub open spec fn stop_files(buffer: Seq<TimeSlice>, mode: OutputMode, plan: Seq<(UtcTime, Seq<i64>)>) -> bool {
    match mode {
        OutputMode::PerMinute => {
            &&& plan.len() == buffer.len()
            &&& forall|k: int| 0 <= k < plan.len() ==> #[trigger] plan[k] == (buffer[k].time, seq![buffer[k].time@.timestamp as i64])
        },
        OutputMode::Duration(_) => if buffer.len() == 0 {
            plan.len() == 0
        } else {
            &&& plan.len() == 1
            &&& plan[0].0 == buffer[0].time
            &&& plan[0].1.len() == buffer.len()
            &&& forall|k: int| 0 <= k < buffer.len() ==> #[trigger] plan[0].1[k] == buffer[k].time@.timestamp as i64
        },
    }
}

/// The files of a stop plan, their minutes viewed as sequences.
pub open spec fn plan_view(v: Seq<(UtcTime, Vec<i64>)>) -> Seq<(UtcTime, Seq<i64>)> {
    v.map_values(|p: (UtcTime, Vec<i64>)| (p.0, p.1@))
}

impl MonitorState {
    fn has_seen(&self, key: &str) -> (b: bool)
        ensures
            b == strings_view(self.seen@).contains(key@),
    {
        let kc = chars_of(key);
        let ghost sv = strings_view(self.seen@);
        let mut i: usize = 0;
        while i < self.seen.len()
            invariant
                i <= self.seen@.len(),
                sv == strings_view(self.seen@),
                kc@ == key@,
                forall|j: int| 0 <= j < i ==> sv[j] != key@,
            decreases self.seen.len() - i,
        {
            let c = chars_of(self.seen[i].as_str());
            assert(c@ == sv[i as int]);
            if chars_eq(c.as_slice(), kc.as_slice()) {
                return true;
            }
            i = i + 1;
        }
        false
    }

    fn take_path(&mut self, key: String)
        requires
            old(self).wf(),
            !strings_view(old(self).seen@).contains(key@),
        ensures
            final(self).wf(),
            strings_view(final(self).seen@) == strings_view(old(self).seen@).push(key@),
            final(self).processed == old(self).processed + 1,
            final(self).buffer == old(self).buffer,
            final(self).flushed == old(self).flushed,
            final(self).closed == old(self).closed,
            final(self).devices == old(self).devices,
            final(self).generated == old(self).generated,
    {
        let ghost before = strings_view(self.seen@);
        let ghost kv = key@;
        self.seen.push(key);
        self.processed = self.seen.len() as u64;
        proof {
            assert(strings_view(self.seen@) =~= before.push(kv));
            let now = strings_view(self.seen@);
            assert forall|i: int, j: int| 0 <= i < now.len() && 0 <= j < now.len() && i != j implies now[i] != now[j] by {
                if i < before.len() && j < before.len() {
                    assert(now[i] == before[i] && now[j] == before[j]);
                } else if i == before.len() {
                    assert(now[j] == before[j]);
                } else {
                    assert(now[i] == before[i]);
                }
            }
        }
    }

    /// Takes in the recording found at the path whose text is `key`, for
    /// the minute starting at `time` (see `took`): each path is taken once;
    /// a late recording is answered `Warned` when `ignore_late`, else
    /// `Saved`.
    pub fn take_in(&mut self, key: String, time: UtcTime, device: String, path: PathBuf, ignore_late: bool) -> (t: Taken)
        requires
            old(self).wf(),
        ensures
            keeps_written(*old(self), *final(self)),
            final(self).wf(),
            took(*old(self), *final(self), key@, time, device@, path, ignore_late, t),
    {
        if self.has_seen(key.as_str()) {
            return Taken::Seen;
        }
        let ghost dv = device@;
        self.take_path(key);
        match self.arrive(time, device, path) {
            Arrival::Late => if ignore_late {
                Taken::Warned
            } else {
                Taken::Saved
            },
            Arrival::Buffered { new_device } => Taken::Buffered { new_device },
        }
    }

    /// Takes in the recordings found at a poll, in order (see `took_all`):
    /// each path is taken at most once, over this and every other call.
    pub fn take_all(&mut self, found: Vec<(String, UtcTime, String, PathBuf)>, ignore_late: bool) -> (ts: Vec<Taken>)
        requires
            old(self).wf(),
        ensures
            keeps_written(*old(self), *final(self)),
            final(self).wf(),
            took_all(*old(self), *final(self), found_view(found@), ignore_late, ts@),
    {
        let ghost s0 = *self;
        let ghost all = found_view(found@);
        let mut out: Vec<Taken> = Vec::new();
        assert(all.take(0) =~= Seq::<(Seq<char>, UtcTime, Seq<char>, PathBuf)>::empty());
        for item in it: found
            invariant
                self.wf(),
                all == found_view(it.seq()),
                keeps_written(s0, *self),
                took_all(s0, *self, all.take(it.index()), ignore_late, out@),
        {
            let ghost i = it.index();
            let ghost prev = *self;
            let ghost prev_out = out@;
            let (key, time, device, path) = item;
            proof {
                assert(all[i] == (key@, time, device@, path));
            }
            let t = self.take_in(key, time, device, path, ignore_late);
            out.push(t);
            proof {
                lemma_keeps_written_chain(s0, prev, *self);
                let items = all.take(i + 1);
                assert(items.drop_last() =~= all.take(i));
                assert(items.last() == all[i]);
                assert(out@.drop_last() =~= prev_out);
                assert(out@.last() == t);
                assert(took_all(s0, prev, items.drop_last(), ignore_late, out@.drop_last()));
                assert(items.len() == out@.len());
                assert(took(prev, *self, items.last().0, items.last().1, items.last().2, items.last().3, ignore_late, out@.last()));
                assert(took_all(s0, *self, items, ignore_late, out@));
            }
        }
        proof {
            assert(all.take(all.len() as int) =~= all);
        }
        out
    }

    /// Marks every path of `existing` as taken unless `backfill`, so that
    /// the recordings present at the start are skipped; with `backfill`
    /// nothing changes and they are taken like any other.
    pub fn start(&mut self, existing: Vec<String>, backfill: bool)
        requires
            old(self).wf(),
        ensures
            keeps_written(*old(self), *final(self)),
            final(self).wf(),
            backfill ==> *final(self) == *old(self),
            !backfill ==> {
                &&& strings_view(final(self).seen@).to_set() == strings_view(old(self).seen@).to_set().union(
                    strings_view(existing@).to_set(),
                )
                &&& final(self).buffer == old(self).buffer
                &&& final(self).flushed == old(self).flushed
                &&& final(self).closed == old(self).closed
                &&& final(self).devices == old(self).devices
                &&& final(self).generated == old(self).generated
            },
    {
        if backfill {
            return;
        }
        let ghost s0 = strings_view(self.seen@).to_set();
        let ghost all = strings_view(existing@);
        proof {
            assert(all.take(0).to_set() =~= Set::<Seq<char>>::empty());
            assert(s0.union(all.take(0).to_set()) =~= s0);
        }
        for e in it: existing
            invariant
                self.wf(),
                all == strings_view(it.seq()),
                strings_view(self.seen@).to_set() == s0.union(all.take(it.index()).to_set()),
                self.buffer == old(self).buffer,
                self.flushed == old(self).flushed,
                self.closed == old(self).closed,
                self.devices == old(self).devices,
                self.generated == old(self).generated,
        {
            let ghost i = it.index();
            let ghost ev = e@;
            proof {
                assert(all.take(i + 1) =~= all.take(i).push(ev));
                all.take(i).lemma_push_to_set_commute(ev);
            }
            if !self.has_seen(e.as_str()) {
                let ghost before = strings_view(self.seen@);
                self.take_path(e);
                proof {
                    before.lemma_push_to_set_commute(ev);
                    assert(strings_view(self.seen@).to_set() =~= s0.union(all.take(i + 1).to_set()));
                }
            } else {
                proof {
                    assert(strings_view(self.seen@).to_set().contains(ev));
                    assert(strings_view(self.seen@).to_set() =~= s0.union(all.take(i + 1).to_set()));
                }
            }
        }
        proof {
            assert(all.take(all.len() as int) =~= all);
        }
    }

    /// Whether the minute starting at `ts` is waiting.
    pub fn is_waiting(&self, ts: i64) -> (b: bool)
        requires
            self.wf(),
        ensures
            b == waiting(*self).contains_key(ts as int),
    {
        let ghost pairs = slices_pairs(self.buffer@);
        proof {
            crate::dataset::lemma_slices_keys_unique(self.buffer@);
            lemma_assoc_dom(pairs, ts as int);
        }
        let k = crate::dataset::slice_position(&self.buffer, ts);
        if k < self.buffer.len() && self.buffer[k].time.timestamp() == ts {
            assert(pairs[k as int].0 == ts);
            true
        } else {
            proof {
                assert forall|i: int| 0 <= i < pairs.len() implies #[trigger] pairs[i].0 != ts by {
                    assert(pairs[i].0 == self.buffer@[i].time@.timestamp);
                    if i > k {
                        assert(self.buffer@[k as int].time@.timestamp < self.buffer@[i].time@.timestamp);
                    }
                }
            }
            false
        }
    }

    /// Settles a minute taken out to be written on its own: when its file
    /// was written the minute is recorded as written (one more file); when
    /// it was not, the minute waits again, provided it may (it was not
    /// written, is not waiting and names each device once; otherwise nothing
    /// changes).
    pub fn settle_minute(&mut self, s: TimeSlice, written: bool)
        requires
            old(self).wf(),
            written ==> old(self).generated < u64::MAX,
        ensures
            keeps_written(*old(self), *final(self)),
            final(self).wf(),
            written ==> file_recorded(*old(self), *final(self), seq![s.time@.timestamp as i64]),
            !written && !minute_written(*old(self), s.time@.timestamp) && !waiting(*old(self)).contains_key(
                s.time@.timestamp,
            ) && keys_unique(slice_pairs(s.files@)) ==> slice_restored(*old(self), *final(self), s),
            !written && !(!minute_written(*old(self), s.time@.timestamp) && !waiting(*old(self)).contains_key(
                s.time@.timestamp,
            ) && keys_unique(slice_pairs(s.files@))) ==> *final(self) == *old(self),
    {
        let ts = s.time.timestamp();
        if written {
            let one = [ts];
            self.record_file(&one);
            assert(one@ =~= seq![ts]);
        } else if !self.minute_written(ts) && !self.is_waiting(ts) && s.devices_unique() {
            self.restore_slice(s);
        }
    }

    /// The files to write when the monitor stops (see `stop_files`).
    pub fn stop_plan(&self, mode: OutputMode) -> (plan: Vec<(UtcTime, Vec<i64>)>)
        ensures
            stop_files(self.buffer@, mode, plan_view(plan@)),
    {
        let mut plan: Vec<(UtcTime, Vec<i64>)> = Vec::new();
        match mode {
            OutputMode::PerMinute => {
                let mut k: usize = 0;
                while k < self.buffer.len()
                    invariant
                        k <= self.buffer@.len(),
                        mode == OutputMode::PerMinute,
                        plan@.len() == k,
                        forall|j: int| 0 <= j < k ==> #[trigger] plan_view(plan@)[j] == (self.buffer@[j].time, seq![self.buffer@[j].time@.timestamp as i64]),
                    decreases self.buffer.len() - k,
                {
                    let t = self.buffer[k].time;
                    let ts = t.timestamp();
                    let one = vec![ts];
                    assert(one@ =~= seq![ts]);
                    let ghost before = plan@;
                    plan.push((t, one));
                    proof {
                        assert(ts as int as i64 == ts);
                        assert forall|j: int| 0 <= j < k + 1 implies #[trigger] plan_view(plan@)[j] == (self.buffer@[j].time, seq![self.buffer@[j].time@.timestamp as i64]) by {
                            assert(plan_view(plan@)[j] == (plan@[j].0, plan@[j].1@));
                            if j < k {
                                assert(plan@[j] == before[j]);
                                assert(plan_view(before)[j] == (before[j].0, before[j].1@));
                            }
                        }
                    }
                    k = k + 1;
                }
            },
            OutputMode::Duration(_) => {
                if self.buffer.len() > 0 {
                    let mut times: Vec<i64> = Vec::new();
                    let mut k: usize = 0;
                    while k < self.buffer.len()
                        invariant
                            k <= self.buffer@.len(),
                            times@.len() == k,
                            forall|j: int| 0 <= j < k ==> #[trigger] times@[j] == self.buffer@[j].time@.timestamp as i64,
                        decreases self.buffer.len() - k,
                    {
                        times.push(self.buffer[k].time.timestamp());
                        k = k + 1;
                    }
                    plan.push((self.buffer[0].time, times));
                    assert(plan_view(plan@)[0] == (plan@[0].0, plan@[0].1@));
                }
            },
        }
        plan
    }

    /// What the monitor reports: recordings taken, files written, minutes
    /// waiting.
    pub fn status(&self) -> (r: (u64, u64, u64))
        ensures
            r == (self.processed, self.generated, self.buffer@.len() as u64),
    {
        (self.processed, self.generated, self.buffer.len() as u64)
    }

    /// What the monitor reports when it stops: recordings taken, files
    /// written, and no minute waiting.
    pub fn stop_status(&self) -> (r: (u64, u64, u64))
        ensures
            r == (self.processed, self.generated, 0u64),
    {
        (self.processed, self.generated, 0)
    }
}

/// `a` less its remainder on division by `m`, the remainder taking the
/// sign of `a` (as Rust's `%` does): `a` rounded toward zero to a multiple
/// of `m`.
pub open spec fn trunc_rem(a: int, m: int) -> int {
    if a >= 0 {
        a % m
    } else {
        -((-a) % m)
    }
}

/// The start of the group of `dur` minutes that the minute starting at
/// `first` falls in, by Rust's remainder.
pub open spec fn group_start(first: int, dur: int) -> int {
    first - trunc_rem(first, dur * 60)
}

/// Whether the minute starting at `t` belongs to the group of `dur` minutes
/// starting at `gs`.
pub open spec fn in_group(t: int, gs: int, dur: int) -> bool {
    gs <= t < gs + dur * 60
}

/// Whether the group of `dur` minutes starting at `gs` and the waiting
/// window after it are over at `now`.
pub open spec fn group_due(gs: int, dur: int, now: int, wait: int) -> bool {
    now >= gs + dur * 60 + wait
}

/// The timestamps of instants.
pub open spec fn timestamps(v: Seq<UtcTime>) -> Seq<int> {
    v.map_values(|t: UtcTime| t@.timestamp)
}

/// Whether `x` is the least of `s`.
pub open spec fn is_least(s: Seq<int>, x: int) -> bool {
    s.contains(x) && forall|j: int| 0 <= j < s.len() ==> x <= s[j]
}

/// The least of `s`, which must not be empty.
pub open spec fn least(s: Seq<int>) -> int {
    choose|x: int| is_least(s, x)
}

proof fn lemma_least_exists(s: Seq<int>)
    requires
        s.len() > 0,
    ensures
        is_least(s, least(s)),
    decreases s.len(),
{
    if s.len() == 1 {
        assert(is_least(s, s[0]));
    } else {
        let r = s.drop_last();
        lemma_least_exists(r);
        let x = least(r);
        let i = choose|i: int| 0 <= i < r.len() && r[i] == x;
        assert forall|j: int| 0 <= j < s.len() - 1 implies s[j] == #[trigger] r[j] by {}
        if s.last() < x {
            assert(s[s.len() - 1] == s.last());
            assert forall|j: int| 0 <= j < s.len() implies s.last() <= s[j] by {
                if j < s.len() - 1 {
                    assert(x <= r[j]);
                }
            }
            assert(is_least(s, s.last()));
        } else {
            assert(s[i] == x);
            assert forall|j: int| 0 <= j < s.len() implies x <= s[j] by {
                if j < s.len() - 1 {
                    assert(x <= r[j]);
                }
            }
            assert(is_least(s, x));
        }
    }
}

proof fn lemma_least_unique(s: Seq<int>, x: int)
    requires
        is_least(s, x),
    ensures
        least(s) == x,
{
    let y = least(s);
    assert(is_least(s, y));
    let i = choose|i: int| 0 <= i < s.len() && s[i] == x;
    let j = choose|j: int| 0 <= j < s.len() && s[j] == y;
    assert(y <= s[i]);
    assert(x <= s[j]);
}

fn rounded_start(first: i64, dur_min: u32) -> (gs: i64)
    requires
        dur_min > 0,
    ensures
        gs == group_start(first as int, dur_min as int),
{
    let m: u64 = (dur_min as u64) * 60;
    if first >= 0 {
        let r: u64 = (first as u64) % m;
        first - (r as i64)
    } else {
        let mag: u64 = (-(first as i128)) as u64;
        let r: u64 = mag % m;
        first + (r as i64)
    }
}

/// The next file of minutes to write in the mode that groups `dur_min`
/// minutes: the minutes among `ready` that fall in the group of the
/// earliest of them, with the group's start, once the group and the
/// waiting window of `wait` seconds are over at `now`. `None` when no
/// minute is ready, when the group is not over, when it holds none of them,
/// or when chrono cannot represent its start.
pub fn duration_group(ready: &[UtcTime], dur_min: u32, now: i64, wait: i64) -> (r: Option<(UtcTime, Vec<UtcTime>)>)
    requires
        dur_min > 0,
    ensures
        ready@.len() == 0 ==> r is None,
        ready@.len() > 0 ==> {
            let gs = group_start(least(timestamps(ready@)), dur_min as int);
            let members = ready@.filter(|t: UtcTime| in_group(t@.timestamp, gs, dur_min as int));
            match r {
                Some((g, m)) => {
                    &&& g@.timestamp == gs
                    &&& spec_utc_from_timestamp(gs) == Some(g@)
                    &&& m@ == members
                    &&& members.len() > 0
                    &&& group_due(gs, dur_min as int, now as int, wait as int)
                },
                None => spec_utc_from_timestamp(gs) is None || !group_due(gs, dur_min as int, now as int, wait as int)
                    || members.len() == 0,
            }
        },
{
    if ready.len() == 0 {
        return None;
    }
    let ghost ts = timestamps(ready@);
    let mut first: i64 = ready[0].timestamp();
    let mut i: usize = 1;
    assert(ts.take(1)[0] == first);
    while i < ready.len()
        invariant
            ts == timestamps(ready@),
            1 <= i <= ready@.len(),
            ts.take(i as int).contains(first as int),
            forall|j: int| 0 <= j < i ==> first <= ts[j],
        decreases ready.len() - i,
    {
        let t = ready[i].timestamp();
        if t < first {
            first = t;
            assert(ts.take(i + 1)[i as int] == t);
        } else {
            let ghost k = choose|k: int| 0 <= k < i && ts.take(i as int)[k] == first;
            assert(ts.take(i + 1)[k] == first);
        }
        i = i + 1;
    }
    proof {
        assert(ts.take(ts.len() as int) =~= ts);
        lemma_least_unique(ts, first as int);
    }
    let gs = rounded_start(first, dur_min);
    let start = match UtcTime::from_timestamp(gs) {
        Some(g) => g,
        None => return None,
    };
    if (now as i128) < (gs as i128) + (dur_min as i128) * 60 + (wait as i128) {
        return None;
    }
    let ghost pred = |t: UtcTime| in_group(t@.timestamp, gs as int, dur_min as int);
    let mut members: Vec<UtcTime> = Vec::new();
    let mut j: usize = 0;
    assert(ready@.take(0).filter(pred) =~= Seq::<UtcTime>::empty());
    while j < ready.len()
        invariant
            pred == (|t: UtcTime| in_group(t@.timestamp, gs as int, dur_min as int)),
            j <= ready@.len(),
            members@ == ready@.take(j as int).filter(pred),
        decreases ready.len() - j,
    {
        let t = ready[j];
        proof {
            assert(ready@.take(j + 1) =~= ready@.take(j as int).push(t));
            ready@.take(j as int).lemma_filter_push(t, pred);
        }
        let tt = t.timestamp();
        if (gs as i128) <= (tt as i128) && (tt as i128) < (gs as i128) + (dur_min as i128) * 60 {
            members.push(t);
        }
        j = j + 1;
    }
    proof {
        assert(ready@.take(ready@.len() as int) =~= ready@);
    }
    if members.len() == 0 {
        return None;
    }
    Some((start, members))
}

/// The timestamps of instants, as stored.
pub open spec fn stamps_of(v: Seq<UtcTime>) -> Seq<i64> {
    v.map_values(|t: UtcTime| t@.timestamp as i64)
}

/// The files a poll at `now` writes, each with the minutes it holds: in the
/// mode of one file per minute, each ready minute on its own, in order; in
/// the grouping mode, the group of the earliest ready minute with the ready
/// minutes in it, once the group and its waiting window are over (see
/// `duration_group`), else none.
pub open spec fn due_plan(st: MonitorState, mode: OutputMode, now: int, wait: int, plan: Seq<(UtcTime, Seq<i64>)>) -> bool {
    let ready = ready_of(st.buffer@, now, wait);
    match mode {
        OutputMode::PerMinute => {
            &&& plan.len() == ready.len()
            &&& forall|k: int| 0 <= k < plan.len() ==> #[trigger] plan[k] == (ready[k], seq![ready[k]@.timestamp as i64])
        },
        OutputMode::Duration(d) => if ready.len() == 0 {
            plan.len() == 0
        } else {
            let gs = group_start(least(timestamps(ready)), d as int);
            let members = ready.filter(|t: UtcTime| in_group(t@.timestamp, gs, d as int));
            if spec_utc_from_timestamp(gs) is Some && group_due(gs, d as int, now, wait) && members.len() > 0 {
                &&& plan.len() == 1
                &&& plan[0].0@.timestamp == gs
                &&& spec_utc_from_timestamp(gs) == Some(plan[0].0@)
                &&& plan[0].1 == stamps_of(members)
            } else {
                plan.len() == 0
            }
        },
    }
}

impl MonitorState {
    /// The files to write at a poll at `now` with a waiting window of
    /// `wait` seconds (see `due_plan`).
    pub fn due_files(&self, mode: OutputMode, now: i64, wait: i64) -> (plan: Vec<(UtcTime, Vec<i64>)>)
        requires
            mode is Duration && mode->0 == 0 ==> ready_of(self.buffer@, now as int, wait as int).len() == 0,
        ensures
            due_plan(*self, mode, now as int, wait as int, plan_view(plan@)),
    {
        let ready = self.ready_times(now, wait);
        let mut plan: Vec<(UtcTime, Vec<i64>)> = Vec::new();
        match mode {
            OutputMode::PerMinute => {
                let mut k: usize = 0;
                while k < ready.len()
                    invariant
                        k <= ready@.len(),
                        plan@.len() == k,
                        forall|j: int| 0 <= j < k ==> #[trigger] plan_view(plan@)[j] == (ready@[j], seq![ready@[j]@.timestamp as i64]),
                    decreases ready.len() - k,
                {
                    let t = ready[k];
                    let one = vec![t.timestamp()];
                    assert(one@ =~= seq![t@.timestamp as i64]);
                    let ghost before = plan@;
                    plan.push((t, one));
                    proof {
                        assert forall|j: int| 0 <= j < k + 1 implies #[trigger] plan_view(plan@)[j] == (ready@[j], seq![ready@[j]@.timestamp as i64]) by {
                            assert(plan_view(plan@)[j] == (plan@[j].0, plan@[j].1@));
                            if j < k {
                                assert(plan@[j] == before[j]);
                                assert(plan_view(before)[j] == (before[j].0, before[j].1@));
                            }
                        }
                    }
                    k = k + 1;
                }
            },
            OutputMode::Duration(d) => {
                if ready.len() > 0 {
                    if let Some((g, m)) = duration_group(ready.as_slice(), d, now, wait) {
                        let mut times: Vec<i64> = Vec::new();
                        let mut k: usize = 0;
                        while k < m.len()
                            invariant
                                k <= m@.len(),
                                times@ == stamps_of(m@.take(k as int)),
                            decreases m.len() - k,
                        {
                            let ghost before = times@;
                            times.push(m[k].timestamp());
                            assert(m@.take(k + 1) =~= m@.take(k as int).push(m@[k as int]));
                            assert(times@ =~= stamps_of(m@.take(k + 1)));
                            k = k + 1;
                        }
                        assert(m@.take(m@.len() as int) =~= m@);
                        plan.push((g, times));
                        assert(plan_view(plan@)[0] == (plan@[0].0, plan@[0].1@));
                    }
                }
            },
        }
        plan
    }
}

/// Readiness governs every write: each minute that a poll's plan writes is
/// a waiting minute whose minute and waiting window are over at `now`; in
/// the grouping mode it lies in its file's group, and the group and its
/// waiting window are over too.
pub proof fn lemma_due_minutes_ready(
    st: MonitorState,
    mode: OutputMode,
    now: int,
    wait: int,
    plan: Seq<(UtcTime, Seq<i64>)>,
    k: int,
    j: int,
)
    requires
        due_plan(st, mode, now, wait, plan),
        0 <= k < plan.len(),
        0 <= j < plan[k].1.len(),
    ensures
        ready_at(plan[k].1[j] as int, now, wait),
        waiting(st).contains_key(plan[k].1[j] as int),
        mode matches OutputMode::Duration(d) ==> {
            &&& in_group(plan[k].1[j] as int, plan[k].0@.timestamp, d as int)
            &&& group_due(plan[k].0@.timestamp, d as int, now, wait)
        },
{
    let ready = ready_of(st.buffer@, now, wait);
    let upred = |t: UtcTime| ready_at(t@.timestamp, now, wait);
    let inst = slice_instants(st.buffer@);
    let t: UtcTime = match mode {
        OutputMode::PerMinute => {
            assert(plan[k] == (ready[k], seq![ready[k]@.timestamp as i64]));
            ready[k]
        },
        OutputMode::Duration(d) => {
            let gs = group_start(least(timestamps(ready)), d as int);
            let gp = |t: UtcTime| in_group(t@.timestamp, gs, d as int);
            let members = ready.filter(gp);
            assert(k == 0);
            assert(plan[0].1 == stamps_of(members));
            ready.lemma_filter_pred(gp, j);
            ready.lemma_filter_contains_rev(gp, members[j]);
            members[j]
        },
    };
    assert(ready.contains(t)) by {
        match mode {
            OutputMode::PerMinute => {
                assert(ready[k] == t);
            },
            OutputMode::Duration(d) => {},
        }
    }
    inst.lemma_filter_contains_rev(upred, t);
    let i = choose|i: int| 0 <= i < ready.len() && ready[i] == t;
    inst.lemma_filter_pred(upred, i);
    let q = choose|q: int| 0 <= q < inst.len() && inst[q] == t;
    crate::time::lemma_timestamp_bounds(t);
    assert(slices_pairs(st.buffer@)[q].0 == t@.timestamp);
    lemma_assoc_dom(slices_pairs(st.buffer@), t@.timestamp);
}

/// The group that `duration_group` forms starts at a multiple of its
/// length, and holds the earliest ready minute, so that a due group is not
/// empty, exactly when that minute is at or after the epoch or itself
/// starts at a multiple of the length. (Before the epoch Rust's remainder
/// rounds up, and the group can begin after that minute.)
pub proof fn lemma_group_holds_earliest(ready: Seq<UtcTime>, dur: int)
    requires
        ready.len() > 0,
        dur > 0,
    ensures
        ({
            let first = least(timestamps(ready));
            let gs = group_start(first, dur);
            &&& gs % (dur * 60) == 0
            &&& in_group(first, gs, dur) <==> (first >= 0 || first % (dur * 60) == 0)
            &&& (first >= 0 || first % (dur * 60) == 0) ==> ready.filter(
                |t: UtcTime| in_group(t@.timestamp, gs, dur),
            ).len() > 0
        }),
{
    let ts = timestamps(ready);
    lemma_least_exists(ts);
    let first = least(ts);
    let k = choose|k: int| 0 <= k < ts.len() && ts[k] == first;
    let m = dur * 60;
    let gs = group_start(first, dur);
    if first >= 0 {
        let q = first / m;
        let r = first % m;
        vstd::arithmetic::div_mod::lemma_fundamental_div_mod(first, m);
        assert(first == m * q + r);
        assert(gs == q * m) by (nonlinear_arith)
            requires
                gs == first - r,
                first == m * q + r,
        ;
        vstd::arithmetic::div_mod::lemma_mod_multiples_basic(q, m);
    } else {
        let a = -first;
        let q = a / m;
        let r = a % m;
        vstd::arithmetic::div_mod::lemma_fundamental_div_mod(a, m);
        assert(a == m * q + r);
        assert(gs == (-q) * m) by (nonlinear_arith)
            requires
                gs == first + r,
                a == m * q + r,
                first == -a,
        ;
        vstd::arithmetic::div_mod::lemma_mod_multiples_basic(-q, m);
        if r == 0 {
            assert(first == (-q) * m) by (nonlinear_arith)
                requires
                    first == -a,
                    a == m * q + r,
                    r == 0,
            ;
            vstd::arithmetic::div_mod::lemma_mod_multiples_basic(-q, m);
        } else {
            assert(first == (-q - 1) * m + (m - r)) by (nonlinear_arith)
                requires
                    first == -a,
                    a == m * q + r,
            ;
            vstd::arithmetic::div_mod::lemma_fundamental_div_mod_converse(first, m, -q - 1, m - r);
        }
    }
    if first >= 0 || first % m == 0 {
        let pred = |t: UtcTime| in_group(t@.timestamp, gs, dur);
        assert(ts[k] == ready[k]@.timestamp);
        assert(pred(ready[k]));
        ready.lemma_filter_contains(pred, k);
    }
}

/// The name of the file that keeps a recording which came after its minute
/// was written: `{prefix}_LATE_{YYYYMMDD_hhmm}_{device}.segy`.
pub open spec fn late_name_text(prefix: Seq<char>, t: CivilTime, device: Seq<char>) -> Seq<char> {
    prefix + "_LATE_"@ + utc_text(t, "%Y%m%d_%H%M"@) + "_"@ + device + ".segy"@
}

/// The name of the file that keeps a late recording of `device` for the
/// minute starting at `time`.
pub fn late_file_name(prefix: &str, time: &UtcTime, device: &str) -> (name: String)
    ensures
        name@ == late_name_text(prefix@, time@, device@),
{
    proof {
        reveal_strlit("%Y%m%d_%H%M");
    }
    let mut out: Vec<char> = chars_of(prefix);
    let stamp = format_utc(time, "%Y%m%d_%H%M");
    append_chars(&mut out, chars_of("_LATE_").as_slice());
    append_chars(&mut out, chars_of(stamp.as_str()).as_slice());
    append_chars(&mut out, chars_of("_").as_slice());
    append_chars(&mut out, chars_of(device).as_slice());
    append_chars(&mut out, chars_of(".segy").as_slice());
    string_of(out.as_slice())
}


/// How the live monitor runs: the folder it watches (as text), where it
/// writes (as text), the prefix and naming template of the files, the
/// revision declared, whether the GPS table's coordinates replace the
/// recordings' own, the devices it takes (all when `None`), how it groups
/// minutes, how many seconds it waits after a minute before writing it,
/// whether late recordings are dropped (else kept in files of their own),
/// how many seconds pass between polls, and whether recordings present at
/// the start are taken too.
#[derive(Debug, Clone)]
pub struct MonitorOptions {
    pub root_dir: String,
    pub output_dir: String,
    pub file_prefix: String,
    pub file_template: String,
    pub revision: SegyRevision,
    pub use_gps_coords: bool,
    pub selected_devices: Option<Vec<String>>,
    pub output_mode: OutputMode,
    pub wait_window_secs: u64,
    pub ignore_late: bool,
    pub poll_interval_secs: u64,
    pub backfill: bool,
}

impl Default for MonitorOptions {
    /// Watches nothing yet; writes under `./output` files named
    /// `microseismic_{YYYY}{MM}{DD}_{hh}{mm}`, revision 2, GPS coordinates
    /// used, all devices, one file per minute, 60 seconds of waiting, late
    /// recordings kept, a poll every 10 seconds, existing recordings taken.
    fn default() -> (o: MonitorOptions)
        ensures
            o.root_dir@ == Seq::<char>::empty(),
            o.output_dir@ == "./output"@,
            o.file_prefix@ == "microseismic"@,
            o.file_template@ == "{prefix}_{YYYY}{MM}{DD}_{hh}{mm}"@,
            o.revision == SegyRevision::Rev2,
            o.use_gps_coords,
            o.selected_devices is None,
            o.output_mode == OutputMode::PerMinute,
            o.wait_window_secs == 60,
            !o.ignore_late,
            o.poll_interval_secs == 10,
            o.backfill,
    {
        MonitorOptions {
            root_dir: String::new(),
            output_dir: "./output".to_owned(),
            file_prefix: "microseismic".to_owned(),
            file_template: "{prefix}_{YYYY}{MM}{DD}_{hh}{mm}".to_owned(),
            revision: SegyRevision::Rev2,
            use_gps_coords: true,
            selected_devices: None,
            output_mode: OutputMode::PerMinute,
            wait_window_secs: 60,
            ignore_late: false,
            poll_interval_secs: 10,
            backfill: true,
        }
    }
}


/// A written minute stays written: once a file recorded it, it has left
/// the buffer, and every recording of it that arrives later is answered
/// `Late` and changes nothing.
pub proof fn lemma_written_minute_is_late(
    s0: MonitorState,
    s1: MonitorState,
    times: Seq<i64>,
    s2: MonitorState,
    time: UtcTime,
    device: Seq<char>,
    path: PathBuf,
    a: Arrival,
)
    requires
        file_recorded(s0, s1, times),
        listed(times, time@.timestamp),
        arrival(s1, s2, time, device, path, a),
    ensures
        !waiting(s1).contains_key(time@.timestamp),
        a == Arrival::Late,
        s2 == s1,
{
    let ts = time@.timestamp;
    crate::time::lemma_timestamp_bounds(time);
    assert(listed(times, (ts as i64) as int));
    assert(s1.flushed@.contains(ts as i64));
}

/// A minute that was not written takes in every recording that arrives
/// for it: afterwards the buffer maps the recording's device, in that
/// minute, to its path.
pub proof fn lemma_unwritten_minute_buffers(
    s0: MonitorState,
    s1: MonitorState,
    time: UtcTime,
    device: Seq<char>,
    path: PathBuf,
    a: Arrival,
)
    requires
        !was_flushed(s0, time@.timestamp),
        arrival(s0, s1, time, device, path, a),
    ensures
        a is Buffered,
        waiting(s1).contains_key(time@.timestamp),
        waiting(s1)[time@.timestamp].contains_key(device),
        waiting(s1)[time@.timestamp][device] == path,
{
}


/// Putting back a minute just taken out undoes the taking: the buffer is as
/// before.
pub proof fn lemma_restore_undoes_take(s0: MonitorState, s1: MonitorState, s2: MonitorState, ts: int, s: TimeSlice)
    requires
        slice_taken(s0, s1, ts, Some(s)),
        slice_restored(s1, s2, s),
    ensures
        waiting(s2) == waiting(s0),
        s2.flushed == s0.flushed,
        s2.devices == s0.devices,
        s2.generated == s0.generated,
{
    assert(waiting(s2) =~= waiting(s0));
}


/// A group written stays written as a whole: once a file recorded the
/// group of `dur` minutes starting at `start`, every recording that arrives
/// later for any minute of its window is answered `Late` and changes
/// nothing, so the group's file is never written again.
pub proof fn lemma_written_group_is_late(
    s0: MonitorState,
    s1: MonitorState,
    times: Seq<i64>,
    start: i64,
    dur: u32,
    s2: MonitorState,
    time: UtcTime,
    device: Seq<char>,
    path: PathBuf,
    a: Arrival,
)
    requires
        group_recorded(s0, s1, times, start, dur),
        start <= time@.timestamp < start + dur * 60,
        arrival(s1, s2, time, device, path, a),
    ensures
        a == Arrival::Late,
        s2 == s1,
{
    let k = s0.closed@.len() as int;
    assert(s1.closed@[k] == (start, dur));
    assert(s1.closed@[k].0 <= time@.timestamp < s1.closed@[k].0 + s1.closed@[k].1 * 60);
    assert(in_closed(s1, time@.timestamp));
}


/// Keeping what was written chains: over any run of operations, each of
/// which keeps it, what was written stays written.
pub proof fn lemma_keeps_written_chain(s1: MonitorState, s2: MonitorState, s3: MonitorState)
    requires
        keeps_written(s1, s2),
        keeps_written(s2, s3),
    ensures
        keeps_written(s1, s3),
{
    assert forall|i: int| 0 <= i < s1.closed@.len() implies s1.closed@[i] == s3.closed@[i] by {
        assert(s1.closed@[i] == s2.closed@[i]);
    }
}

/// A late minute stays late: when a state counts the minute starting at
/// `ts` as written (alone or in the window of a written group), so does
/// every later state that keeps what was written, so a recording arriving
/// for it then is late too.
pub proof fn lemma_late_stays_late(s1: MonitorState, s2: MonitorState, ts: int)
    requires
        keeps_written(s1, s2),
        was_flushed(s1, ts),
    ensures
        was_flushed(s2, ts),
{
    if in_closed(s1, ts) {
        let i = choose|i: int| 0 <= i < s1.closed@.len() && #[trigger] s1.closed@[i].0 <= ts < s1.closed@[i].0 + s1.closed@[i].1 * 60;
        assert(s2.closed@[i] == s1.closed@[i]);
        assert(s2.closed@[i].0 <= ts < s2.closed@[i].0 + s2.closed@[i].1 * 60);
    }
}

/// A written group stays closed whatever follows: once a file recorded the
/// group of `dur` minutes starting at `start`, and any operations that keep
/// what was written come after, a recording taken in then for a minute of
/// its window is answered `Warned` when late recordings are dropped, else
/// `Saved` (or `Seen`, its path taken before), and the waiting minutes, the
/// devices, the minutes and groups written and the files counted stay as
/// they were, so the group's file is not written again.
pub proof fn lemma_written_group_stays_closed(
    s0: MonitorState,
    s1: MonitorState,
    times: Seq<i64>,
    start: i64,
    dur: u32,
    s2: MonitorState,
    s3: MonitorState,
    key: Seq<char>,
    time: UtcTime,
    device: Seq<char>,
    path: PathBuf,
    ignore_late: bool,
    t: Taken,
)
    requires
        group_recorded(s0, s1, times, start, dur),
        keeps_written(s1, s2),
        start <= time@.timestamp < start + dur * 60,
        took(s2, s3, key, time, device, path, ignore_late, t),
    ensures
        t == Taken::Seen || t == (if ignore_late { Taken::Warned } else { Taken::Saved }),
        s3.buffer == s2.buffer,
        s3.devices == s2.devices,
        s3.flushed == s2.flushed,
        s3.closed == s2.closed,
        s3.generated == s2.generated,
{
    let ts = time@.timestamp;
    let k = s0.closed@.len() as int;
    assert(s1.closed@[k] == (start, dur));
    assert(s1.closed@[k].0 <= ts < s1.closed@[k].0 + s1.closed@[k].1 * 60);
    assert(in_closed(s1, ts));
    lemma_late_stays_late(s1, s2, ts);
}

/// Readiness governs what is handed out for writing: every minute that
/// `ready_times` gives is a waiting minute whose minute and waiting window
/// are over at `now`.
pub proof fn lemma_ready_minutes(v: Seq<TimeSlice>, now: int, wait: int, c: CivilTime)
    requires
        slice_times(v).filter(|x: CivilTime| ready_at(x.timestamp, now, wait)).contains(c),
    ensures
        ready_at(c.timestamp, now, wait),
        slice_times(v).contains(c),
{
    let pred = |x: CivilTime| ready_at(x.timestamp, now, wait);
    let f = slice_times(v).filter(pred);
    slice_times(v).lemma_filter_contains_rev(pred, c);
    let i = choose|i: int| 0 <= i < f.len() && f[i] == c;
    slice_times(v).lemma_filter_pred(pred, i);
}

} // verus!
