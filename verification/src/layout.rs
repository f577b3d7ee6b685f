use crate::header::{
    binary_header_bytes, lemma_binary_lengths, lemma_lines_bytes_len, text_header_bytes, BinaryHeader,
    TextHeader,
};
use crate::order::strings_view;
use crate::synth::write_all;
use crate::trace::{lemma_block_lengths, TraceHeader};
use crate::writer::{count32, samples_bytes, state_after_header, trace_accepted, WriterState};
use vstd::prelude::*;

verus! {

/// Each sample takes four bytes.
pub proof fn lemma_samples_length(s: Seq<u32>)
    ensures
        samples_bytes(s).len() == 4 * s.len(),
    decreases s.len(),
{
    if s.len() > 0 {
        lemma_samples_length(s.drop_last());
    }
}

/// The state of a writer that has written nothing.
pub open spec fn fresh_writer() -> WriterState {
    WriterState { output: Seq::empty(), traces_written: 0, samples_per_trace: 0, header_written: false }
}

/// Writing traces of `n` samples each adds, per trace, a 240-byte header
/// and four bytes per sample, and counts each trace.
pub proof fn lemma_traces_length(w: WriterState, ts: Seq<(TraceHeader, Seq<u32>)>, n: nat)
    requires
        forall|k: int| 0 <= k < ts.len() ==> (#[trigger] ts[k]).1.len() == n,
        write_all(w, ts) is Ok,
    ensures
        ({
            let v = write_all(w, ts)->Ok_0;
            &&& v.output.len() == w.output.len() + ts.len() * (240 + 4 * n)
            &&& v.output.take(w.output.len() as int) == w.output
            &&& v.traces_written == w.traces_written + ts.len()
        }),
    decreases ts.len(),
{
    if ts.len() > 0 {
        let r = ts.drop_last();
        assert forall|k: int| 0 <= k < r.len() implies (#[trigger] r[k]).1.len() == n by {
            assert(r[k] == ts[k]);
        }
        lemma_traces_length(w, r, n);
        let u = write_all(w, r)->Ok_0;
        let last = ts.last();
        assert(last == ts[ts.len() - 1]);
        lemma_block_lengths(last.0);
        lemma_samples_length(last.1);
        let v = write_all(w, ts)->Ok_0;
        assert(v.output == u.output + (crate::trace::trace_header_bytes(last.0) + samples_bytes(last.1)));
        assert(v.output.take(w.output.len() as int) =~= u.output.take(w.output.len() as int));
        assert(ts.len() * (240 + 4 * n) == r.len() * (240 + 4 * n) + (240 + 4 * n)) by (nonlinear_arith)
            requires
                ts.len() == r.len() + 1,
        ;
    }
}

/// The layout of a SEG-Y file: a new writer that writes the file headers
/// and then traces of `n` samples each holds the 3200-byte textual header,
/// the 400-byte binary header, then 240 + 4n bytes per trace.
pub proof fn lemma_file_layout(text: TextHeader, bin: BinaryHeader, ts: Seq<(TraceHeader, Seq<u32>)>, n: nat)
    requires
        text.wf(),
        forall|k: int| 0 <= k < ts.len() ==> (#[trigger] ts[k]).1.len() == n,
        write_all(state_after_header(fresh_writer(), text, bin), ts) is Ok,
    ensures
        ({
            let v = write_all(state_after_header(fresh_writer(), text, bin), ts)->Ok_0;
            &&& v.output.len() == 3600 + ts.len() * (240 + 4 * n)
            &&& v.output.take(3200) == text_header_bytes(text)
            &&& v.output.subrange(3200, 3600) == binary_header_bytes(bin)
            &&& v.traces_written == ts.len()
        }),
{
    let w = state_after_header(fresh_writer(), text, bin);
    lemma_lines_bytes_len(strings_view(text.lines@), text.use_utf8);
    lemma_binary_lengths(bin);
    assert(w.output =~= text_header_bytes(text) + binary_header_bytes(bin));
    lemma_traces_length(w, ts, n);
    let v = write_all(w, ts)->Ok_0;
    assert(v.output.take(3600) == w.output);
    assert(v.output.take(3200) =~= w.output.take(3200));
    assert(w.output.take(3200) =~= text_header_bytes(text));
    assert(v.output.subrange(3200, 3600) =~= w.output.subrange(3200, 3600));
    assert(w.output.subrange(3200, 3600) =~= binary_header_bytes(bin));
}

/// Once the binary header fixes a trace length `s` (strictly between 0
/// and 65535), traces are written exactly when each has `s` samples (as a
/// 32-bit count).
pub proof fn lemma_fixed_length(w: WriterState, text: TextHeader, bin: BinaryHeader, ts: Seq<(TraceHeader, Seq<u32>)>)
    requires
        0 < bin.samples_per_trace < 65535,
    ensures
        write_all(state_after_header(w, text, bin), ts) is Ok <==> forall|k: int| 0 <= k < ts.len() ==> count32(
            (#[trigger] ts[k]).1.len() as int,
        ) == bin.samples_per_trace,
        write_all(state_after_header(w, text, bin), ts) is Ok ==> write_all(state_after_header(w, text, bin), ts)->Ok_0.samples_per_trace == bin.samples_per_trace,
    decreases ts.len(),
{
    let h = state_after_header(w, text, bin);
    let spt = bin.samples_per_trace;
    if ts.len() > 0 {
        let r = ts.drop_last();
        let last = ts.last();
        lemma_fixed_length(w, text, bin, r);
        assert(last == ts[ts.len() - 1]);
        let all_ok = forall|k: int| 0 <= k < ts.len() ==> count32((#[trigger] ts[k]).1.len() as int) == spt;
        let rest_ok = forall|k: int| 0 <= k < r.len() ==> count32((#[trigger] r[k]).1.len() as int) == spt;
        assert(all_ok <==> (rest_ok && count32(last.1.len() as int) == spt)) by {
            if all_ok {
                assert forall|k: int| 0 <= k < r.len() implies count32((#[trigger] r[k]).1.len() as int) == spt by {
                    assert(r[k] == ts[k]);
                }
            }
            if rest_ok && count32(last.1.len() as int) == spt {
                assert forall|k: int| 0 <= k < ts.len() implies count32((#[trigger] ts[k]).1.len() as int) == spt by {
                    if k < r.len() {
                        assert(r[k] == ts[k]);
                    }
                }
            }
        }
        if write_all(h, r) is Ok {
            let u = write_all(h, r)->Ok_0;
            lemma_header_stays(h, r);
            assert(trace_accepted(u, last.1.len()) <==> count32(last.1.len() as int) == spt);
        }
    }
}

/// Writing traces keeps the file headers written.
pub proof fn lemma_header_stays(w: WriterState, ts: Seq<(TraceHeader, Seq<u32>)>)
    requires
        w.header_written,
        write_all(w, ts) is Ok,
    ensures
        write_all(w, ts)->Ok_0.header_written,
    decreases ts.len(),
{
    if ts.len() > 0 {
        lemma_header_stays(w, ts.drop_last());
    }
}


/// Taking the output out between traces loses nothing: writing traces after
/// the output was taken out (`take_output`) accepts the same traces, and
/// what was taken followed by what is written then is what writing them
/// without taking anything out gives.
pub proof fn lemma_drained_writes(w: WriterState, ts: Seq<(TraceHeader, Seq<u32>)>)
    ensures
        ({
            let d = WriterState { output: Seq::empty(), ..w };
            match write_all(w, ts) {
                Ok(v) => write_all(d, ts) is Ok && w.output + write_all(d, ts)->Ok_0.output == v.output
                    && write_all(d, ts)->Ok_0 == (WriterState { output: write_all(d, ts)->Ok_0.output, ..v }),
                Err(f) => write_all(d, ts) == Err::<WriterState, crate::synth::Refusal>(f),
            }
        }),
    decreases ts.len(),
{
    let d = WriterState { output: Seq::empty(), ..w };
    if ts.len() == 0 {
        assert(w.output + Seq::<u8>::empty() =~= w.output);
    } else {
        let r = ts.drop_last();
        lemma_drained_writes(w, r);
        match write_all(w, r) {
            Ok(u) => {
                let ud = write_all(d, r)->Ok_0;
                let last = ts.last();
                if trace_accepted(u, last.1.len()) {
                    let tb = crate::trace::trace_header_bytes(last.0) + samples_bytes(last.1);
                    assert(w.output + (ud.output + tb) =~= (w.output + ud.output) + tb);
                }
            },
            Err(_) => {},
        }
    }
}


/// The bytes of traces one after another.
pub open spec fn traces_bytes(ts: Seq<(TraceHeader, Seq<u32>)>) -> Seq<u8>
    decreases ts.len(),
{
    if ts.len() == 0 {
        Seq::empty()
    } else {
        traces_bytes(ts.drop_last()) + crate::writer::trace_bytes(ts.last().0, ts.last().1)
    }
}

/// Writing traces keeps every byte: when all are accepted, the output is
/// what it was followed by each trace's bytes once, in order, and the
/// count of traces written grows by one per trace.
pub proof fn lemma_write_all_output(w: WriterState, ts: Seq<(TraceHeader, Seq<u32>)>)
    requires
        write_all(w, ts) is Ok,
    ensures
        write_all(w, ts)->Ok_0.output == w.output + traces_bytes(ts),
        write_all(w, ts)->Ok_0.traces_written == w.traces_written + ts.len(),
    decreases ts.len(),
{
    if ts.len() == 0 {
        assert(w.output + Seq::<u8>::empty() =~= w.output);
    } else {
        lemma_write_all_output(w, ts.drop_last());
        let u = write_all(w, ts.drop_last())->Ok_0;
        let tb = crate::writer::trace_bytes(ts.last().0, ts.last().1);
        assert((w.output + traces_bytes(ts.drop_last())) + tb =~= w.output + (traces_bytes(ts.drop_last()) + tb));
    }
}

proof fn lemma_lengths_follow_state(w: WriterState, ts: Seq<(TraceHeader, Seq<u32>)>)
    requires
        write_all(w, ts) is Ok,
    ensures
        forall|k: int| 0 <= k < ts.len() ==> count32((#[trigger] ts[k]).1.len() as int) == 0 || count32(
            ts[k].1.len() as int,
        ) == write_all(w, ts)->Ok_0.samples_per_trace,
        w.samples_per_trace != 0 ==> write_all(w, ts)->Ok_0.samples_per_trace == w.samples_per_trace,
    decreases ts.len(),
{
    if ts.len() > 0 {
        let r = ts.drop_last();
        lemma_lengths_follow_state(w, r);
        let u = write_all(w, r)->Ok_0;
        let v = write_all(w, ts)->Ok_0;
        assert forall|k: int| 0 <= k < ts.len() implies count32((#[trigger] ts[k]).1.len() as int) == 0 || count32(
            ts[k].1.len() as int,
        ) == v.samples_per_trace by {
            if k < r.len() {
                assert(ts[k] == r[k]);
            } else {
                assert(ts[k] == ts.last());
            }
        }
    }
}

/// Every trace a writer accepts in one run of writes has one common length
/// (as a 32-bit count), save traces of no samples while no length is fixed
/// yet: whatever two non-empty traces were both accepted have the same
/// count.
pub proof fn lemma_common_length(w: WriterState, ts: Seq<(TraceHeader, Seq<u32>)>, i: int, j: int)
    requires
        write_all(w, ts) is Ok,
        0 <= i < ts.len(),
        0 <= j < ts.len(),
        count32(ts[i].1.len() as int) != 0,
        count32(ts[j].1.len() as int) != 0,
    ensures
        count32(ts[i].1.len() as int) == count32(ts[j].1.len() as int),
{
    lemma_lengths_follow_state(w, ts);
}

} // verus!
