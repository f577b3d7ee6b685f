use crate::error::SegyError;
use crate::layout::{lemma_write_all_output, traces_bytes};
use crate::synth::{
    file_traces, lemma_traces_before_prefix, numbered_in_file, reports, traces_before, traces_view,
    write_all, write_slice_traces, Refusal,
};
use crate::trace::TraceHeader;
use crate::writer::{SegyWriter, WriterState};
use vstd::prelude::*;

verus! {

/// Writing traces depends on a writer's output only by appending to it:
/// two states that differ only in their output accept the same traces and
/// end alike but for their output.
pub proof fn lemma_output_free(w1: WriterState, w2: WriterState, ts: Seq<(TraceHeader, Seq<u32>)>)
    requires
        w2 == (WriterState { output: w2.output, ..w1 }),
    ensures
        write_all(w1, ts) is Ok <==> write_all(w2, ts) is Ok,
        write_all(w1, ts) is Ok ==> write_all(w2, ts)->Ok_0 == (WriterState {
            output: write_all(w2, ts)->Ok_0.output,
            ..write_all(w1, ts)->Ok_0
        }),
        write_all(w1, ts) is Err ==> write_all(w1, ts) == write_all(w2, ts),
    decreases ts.len(),
{
    if ts.len() > 0 {
        lemma_output_free(w1, w2, ts.drop_last());
    }
}

/// Writing `a` then `b` is writing `b` after what writing `a` left.
pub proof fn lemma_write_all_concat(w: WriterState, a: Seq<(TraceHeader, Seq<u32>)>, b: Seq<(TraceHeader, Seq<u32>)>)
    ensures
        write_all(w, a + b) == match write_all(w, a) {
            Ok(v) => write_all(v, b),
            Err(f) => Err::<WriterState, Refusal>(f),
        },
    decreases b.len(),
{
    if b.len() == 0 {
        assert(a + b =~= a);
    } else {
        lemma_write_all_concat(w, a, b.drop_last());
        assert((a + b).drop_last() =~= a + b.drop_last());
        assert((a + b).last() == b.last());
    }
}

/// A writer for a file of many minutes that keeps the numbering itself:
/// the traces of each slice are numbered after those of the slices before
/// it, so that the file holds `file_traces` of the slices written.
pub struct SliceFileWriter {
    writer: SegyWriter,
    next_seq: i32,
    slice_count: usize,
    start: Ghost<WriterState>,
    slices: Ghost<Seq<Seq<(TraceHeader, Seq<u32>)>>>,
    taken: Ghost<Seq<u8>>,
}

impl SliceFileWriter {
    /// The writer's state when the first slice was to come.
    pub closed spec fn start(&self) -> WriterState {
        self.start@
    }

    /// The slices written, in order.
    pub closed spec fn slices(&self) -> Seq<Seq<(TraceHeader, Seq<u32>)>> {
        self.slices@
    }

    /// The bytes taken out so far, in order.
    pub closed spec fn taken(&self) -> Seq<u8> {
        self.taken@
    }

    /// The state of the underlying writer.
    pub closed spec fn held(&self) -> WriterState {
        self.writer@
    }

    /// The slices written are the traces of `file_traces`, written from the
    /// start state; the bytes taken out followed by those held are what
    /// that writing produced, and the numbering goes on after them.
    pub closed spec fn wf(&self) -> bool {
        let full = write_all(self.start@, file_traces(self.slices@));
        &&& self.next_seq == traces_before(self.slices@, self.slices@.len() as int)
        &&& self.slice_count == self.slices@.len()
        &&& full is Ok
        &&& self.taken@ + self.writer@.output == full->Ok_0.output
        &&& self.writer@ == (WriterState { output: self.writer@.output, ..full->Ok_0 })
    }

    /// Starts a file of many minutes on a writer (usually one that has
    /// written the file headers).
    pub fn new(writer: SegyWriter) -> (r: SliceFileWriter)
        ensures
            r.wf(),
            r.start() == writer@,
            r.held() == writer@,
            r.slices() == Seq::<Seq<(TraceHeader, Seq<u32>)>>::empty(),
            r.taken() == Seq::<u8>::empty(),
    {
        let ghost w = writer@;
        let r = SliceFileWriter {
            writer,
            next_seq: 0,
            slice_count: 0,
            start: Ghost(w),
            slices: Ghost(Seq::empty()),
            taken: Ghost(Seq::empty()),
        };
        assert(Seq::<u8>::empty() + w.output =~= w.output);
        r
    }

    /// The number the next slice's traces follow: the traces written so
    /// far.
    pub fn next_trace(&self) -> (n: i32)
        requires
            self.wf(),
        ensures
            n == traces_before(self.slices(), self.slices().len() as int),
    {
        self.next_seq
    }

    /// The number of slices written so far.
    pub fn slices_written(&self) -> (n: usize)
        requires
            self.wf(),
        ensures
            n == self.slices().len(),
    {
        self.slice_count
    }

    /// The number of traces the underlying writer holds written.
    pub fn traces_written(&self) -> (n: u64)
        ensures
            n == self.held().traces_written,
    {
        self.writer.traces_written()
    }

    /// Writes the traces of the next slice, numbered after those already
    /// written, as ensemble (number of slices written) + 1. The first trace
    /// refused ends the file with the writer's error.
    pub fn write_slice(self, traces: &Vec<(TraceHeader, Vec<u32>)>) -> (r: Result<SliceFileWriter, SegyError>)
        requires
            self.wf(),
            self.held().traces_written + traces@.len() < u64::MAX,
            traces_before(self.slices(), self.slices().len() as int) + traces@.len() <= i32::MAX,
            self.slices().len() < usize::MAX,
        ensures
            match write_all(
                self.held(),
                numbered_in_file(
                    traces_view(traces@),
                    traces_before(self.slices(), self.slices().len() as int),
                    self.slices().len() as int,
                ),
            ) {
                Ok(_) => r matches Ok(n) && n.wf() && n.start() == self.start() && n.slices() == self.slices().push(
                    traces_view(traces@),
                ) && n.taken() == self.taken(),
                Err(f) => r matches Err(e) && reports(e, f),
            },
    {
        let SliceFileWriter { mut writer, next_seq, slice_count, start, slices, taken } = self;
        let ghost held = writer@;
        let ghost t = traces_view(traces@);
        let ghost a = file_traces(slices@);
        let ghost b = numbered_in_file(t, next_seq as int, slice_count as int);
        let ghost full = write_all(start@, a)->Ok_0;
        assert(next_seq >= 0) by {
            lemma_traces_before_nonneg(slices@, slices@.len() as int);
        }
        let res = write_slice_traces(&mut writer, traces, next_seq, slice_count);
        match res {
            Err(e) => Err(e),
            Ok(n) => {
                let ghost ns = slices@.push(t);
                proof {
                    lemma_traces_before_prefix(ns, slices@.len() as int);
                    assert(ns.drop_last() =~= slices@);
                    assert(file_traces(ns) == a + b);
                    lemma_write_all_concat(start@, a, b);
                    lemma_output_free(held, full, b);
                    lemma_write_all_output(held, b);
                    lemma_write_all_output(full, b);
                    let v = write_all(held, b)->Ok_0;
                    assert(taken@ + v.output =~= full.output + traces_bytes(b)) by {
                        assert(v.output == held.output + traces_bytes(b));
                        assert((taken@ + held.output) + traces_bytes(b) =~= taken@ + (held.output + traces_bytes(b)));
                    }
                }
                Ok(SliceFileWriter {
                    writer,
                    next_seq: n,
                    slice_count: slice_count + 1,
                    start,
                    slices: Ghost(slices@.push(t)),
                    taken,
                })
            },
        }
    }

    /// Takes out the bytes held so far (see `SegyWriter::take_output`).
    pub fn take_output(&mut self) -> (bytes: Vec<u8>)
        requires
            old(self).wf(),
        ensures
            final(self).wf(),
            final(self).start() == old(self).start(),
            final(self).slices() == old(self).slices(),
            final(self).taken() == old(self).taken() + bytes@,
    {
        let bytes = self.writer.take_output();
        let ghost b = bytes@;
        proof {
            self.taken = Ghost(self.taken@ + b);
            assert(self.taken@ + self.writer@.output =~= old(self).taken@ + old(self).writer@.output);
        }
        bytes
    }

    /// Ends the file: the bytes taken out before, followed by those handed
    /// back, are the start's output followed by every trace of the slices
    /// written, once and in order.
    pub fn finish(self) -> (r: Result<Vec<u8>, SegyError>)
        requires
            self.wf(),
        ensures
            r matches Ok(bytes) && self.taken() + bytes@ == self.start().output + traces_bytes(
                file_traces(self.slices()),
            ),
    {
        proof {
            lemma_write_all_output(self.start@, file_traces(self.slices@));
        }
        self.writer.finish()
    }
}

/// No slice holds a negative number of traces before it.
proof fn lemma_traces_before_nonneg(slices: Seq<Seq<(TraceHeader, Seq<u32>)>>, k: int)
    ensures
        traces_before(slices, k) >= 0,
    decreases k,
{
    if k > 0 {
        lemma_traces_before_nonneg(slices, k - 1);
    }
}

} // verus!
