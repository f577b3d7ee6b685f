use crate::encode::{be32, lemma_add_assoc, push_u32};
use crate::error::SegyError;
use crate::header::{binary_header_bytes, text_header_bytes, BinaryHeader, TextHeader};
use crate::text::{append_chars, chars_of, decimal, push_decimal, string_of};
use crate::trace::{trace_header_bytes, TraceHeader};
use vstd::prelude::*;

verus! {

/// The big-endian bytes of the samples, given as IEEE-754 single-precision
/// bit patterns (`f32::to_bits`), one after another.
pub open spec fn samples_bytes(s: Seq<u32>) -> Seq<u8>
    decreases s.len(),
{
    if s.len() == 0 {
        Seq::<u8>::empty()
    } else {
        samples_bytes(s.drop_last()) + be32(s.last() as int)
    }
}

/// The bytes of one trace: its header, then its samples.
pub open spec fn trace_bytes(h: TraceHeader, s: Seq<u32>) -> Seq<u8> {
    trace_header_bytes(h) + samples_bytes(s)
}

/// `n` as a 32-bit count, as `n as u32` gives it.
pub open spec fn count32(n: int) -> int {
    n % 4294967296
}

/// The observable state of a writer.
pub struct WriterState {
    /// Bytes written and not yet taken out.
    pub output: Seq<u8>,
    /// Traces written so far.
    pub traces_written: nat,
    /// Samples each trace must have; 0 while no count is fixed.
    pub samples_per_trace: nat,
    /// Whether the file headers have been written.
    pub header_written: bool,
}

/// The state after writing the file headers.
pub open spec fn state_after_header(w: WriterState, text: TextHeader, bin: BinaryHeader) -> WriterState {
    WriterState {
        output: w.output + text_header_bytes(text) + binary_header_bytes(bin),
        samples_per_trace: if 0 < bin.samples_per_trace < 65535 {
            bin.samples_per_trace as nat
        } else {
            w.samples_per_trace
        },
        header_written: true,
        ..w
    }
}

/// The sample count a trace of `len` samples must match: the one fixed
/// before, or its own when none is.
pub open spec fn expected_count(w: WriterState, len: nat) -> nat {
    if w.samples_per_trace == 0 {
        count32(len as int) as nat
    } else {
        w.samples_per_trace
    }
}

/// Whether a trace of `len` samples is accepted in state `w`.
pub open spec fn trace_accepted(w: WriterState, len: nat) -> bool {
    w.header_written && count32(len as int) == expected_count(w, len)
}

/// The state after writing an accepted trace.
pub open spec fn state_after_trace(w: WriterState, h: TraceHeader, s: Seq<u32>) -> WriterState {
    WriterState {
        output: w.output + trace_bytes(h, s),
        traces_written: w.traces_written + 1,
        samples_per_trace: expected_count(w, s.len()),
        header_written: true,
    }
}

/// The message of a refused trace length.
pub open spec fn mismatch_message(expected: nat, got: nat) -> Seq<char> {
    "Sample count mismatch: expected "@ + decimal(expected) + ", got "@ + decimal(got)
}

/// A call made on a writer: writing the file headers, writing a trace,
/// flushing, or taking the output out.
pub enum WriterCall {
    Header(TextHeader, BinaryHeader),
    Trace(TraceHeader, Seq<u32>),
    Flush,
    Take,
}

/// The writer's state after the call `c`.
pub open spec fn after_call(w: WriterState, c: WriterCall) -> WriterState {
    match c {
        WriterCall::Header(t, b) => state_after_header(w, t, b),
        WriterCall::Trace(h, s) => if trace_accepted(w, s.len()) {
            state_after_trace(w, h, s)
        } else {
            w
        },
        WriterCall::Flush => w,
        WriterCall::Take => WriterState { output: Seq::empty(), ..w },
    }
}

/// The bytes the call `c` hands out (only taking the output does).
pub open spec fn handed_out(w: WriterState, c: WriterCall) -> Seq<u8> {
    match c {
        WriterCall::Take => w.output,
        _ => Seq::empty(),
    }
}

/// Whether the call `c` is a trace the writer accepts.
pub open spec fn accepted(w: WriterState, c: WriterCall) -> bool {
    match c {
        WriterCall::Trace(_, s) => trace_accepted(w, s.len()),
        _ => false,
    }
}

/// The bytes the call `c` adds: the file headers, or an accepted trace.
pub open spec fn produced(w: WriterState, c: WriterCall) -> Seq<u8> {
    match c {
        WriterCall::Header(t, b) => text_header_bytes(t) + binary_header_bytes(b),
        WriterCall::Trace(h, s) => if trace_accepted(w, s.len()) {
            trace_bytes(h, s)
        } else {
            Seq::empty()
        },
        _ => Seq::empty(),
    }
}

/// The state after the calls `cs`, one after another.
pub open spec fn run_calls(w: WriterState, cs: Seq<WriterCall>) -> WriterState
    decreases cs.len(),
{
    if cs.len() == 0 {
        w
    } else {
        after_call(run_calls(w, cs.drop_last()), cs.last())
    }
}

/// The bytes the calls `cs` hand out, in order.
pub open spec fn taken_out(w: WriterState, cs: Seq<WriterCall>) -> Seq<u8>
    decreases cs.len(),
{
    if cs.len() == 0 {
        Seq::empty()
    } else {
        taken_out(w, cs.drop_last()) + handed_out(run_calls(w, cs.drop_last()), cs.last())
    }
}

/// The bytes the calls `cs` add, in order.
pub open spec fn produced_all(w: WriterState, cs: Seq<WriterCall>) -> Seq<u8>
    decreases cs.len(),
{
    if cs.len() == 0 {
        Seq::empty()
    } else {
        produced_all(w, cs.drop_last()) + produced(run_calls(w, cs.drop_last()), cs.last())
    }
}

/// How many of the calls `cs` are accepted traces.
pub open spec fn accepted_count(w: WriterState, cs: Seq<WriterCall>) -> nat
    decreases cs.len(),
{
    if cs.len() == 0 {
        0
    } else {
        accepted_count(w, cs.drop_last()) + if accepted(run_calls(w, cs.drop_last()), cs.last()) {
            1nat
        } else {
            0nat
        }
    }
}

/// Whether the `i`-th of the calls `cs` is an accepted trace.
pub open spec fn accepted_at(w: WriterState, cs: Seq<WriterCall>, i: int) -> bool {
    accepted(run_calls(w, cs.take(i)), cs[i])
}

/// Over any run of calls, the trace count grows by exactly the number of
/// accepted traces, and every byte the calls add comes out once and in
/// order: what was taken out, followed by what is still held (what
/// `finish` hands back), is what was held at the start followed by every
/// header and accepted trace.
pub proof fn lemma_calls_account(w: WriterState, cs: Seq<WriterCall>)
    ensures
        run_calls(w, cs).traces_written == w.traces_written + accepted_count(w, cs),
        taken_out(w, cs) + run_calls(w, cs).output == w.output + produced_all(w, cs),
    decreases cs.len(),
{
    if cs.len() == 0 {
        assert(Seq::<u8>::empty() + w.output =~= w.output + Seq::<u8>::empty());
    } else {
        let r = cs.drop_last();
        lemma_calls_account(w, r);
        let u = run_calls(w, r);
        let c = cs.last();
        let t = taken_out(w, r);
        let p = produced_all(w, r);
        match c {
            WriterCall::Take => {
                assert((t + u.output) + Seq::<u8>::empty() =~= t + u.output);
                assert(w.output + (p + Seq::<u8>::empty()) =~= w.output + p);
            },
            WriterCall::Flush => {
                assert(t + Seq::<u8>::empty() =~= t);
                assert(p + Seq::<u8>::empty() =~= p);
            },
            WriterCall::Header(th, bh) => {
                let pb = text_header_bytes(th) + binary_header_bytes(bh);
                assert(t + Seq::<u8>::empty() =~= t);
                lemma_add_assoc(t, u.output, pb);
                lemma_add_assoc(w.output, p, pb);
            },
            WriterCall::Trace(h, s) => {
                assert(t + Seq::<u8>::empty() =~= t);
                if trace_accepted(u, s.len()) {
                    let pb = trace_bytes(h, s);
                    lemma_add_assoc(t, u.output, pb);
                    lemma_add_assoc(w.output, p, pb);
                } else {
                    assert(p + Seq::<u8>::empty() =~= p);
                }
            },
        }
    }
}

proof fn lemma_lengths_follow(w: WriterState, cs: Seq<WriterCall>)
    requires
        forall|k: int| 0 <= k < cs.len() ==> !(#[trigger] cs[k] is Header),
    ensures
        forall|k: int| 0 <= k < cs.len() && #[trigger] accepted_at(w, cs, k) ==> count32(cs[k]->Trace_1.len() as int) == 0
            || count32(cs[k]->Trace_1.len() as int) == run_calls(w, cs).samples_per_trace,
        w.samples_per_trace != 0 ==> run_calls(w, cs).samples_per_trace == w.samples_per_trace,
    decreases cs.len(),
{
    if cs.len() > 0 {
        let r = cs.drop_last();
        assert forall|k: int| 0 <= k < r.len() implies !(#[trigger] r[k] is Header) by {
            assert(r[k] == cs[k]);
        }
        lemma_lengths_follow(w, r);
        assert forall|k: int| 0 <= k < cs.len() && #[trigger] accepted_at(w, cs, k) implies count32(
            cs[k]->Trace_1.len() as int,
        ) == 0 || count32(cs[k]->Trace_1.len() as int) == run_calls(w, cs).samples_per_trace by {
            if k < r.len() {
                assert(cs.take(k) =~= r.take(k));
                assert(r[k] == cs[k]);
                assert(accepted_at(w, r, k));
            } else {
                assert(cs.take(k) =~= r);
            }
        }
        assert(!(cs.last() is Header)) by {
            assert(cs[cs.len() - 1] == cs.last());
        }
    }
}

/// Traces accepted over a run of calls that writes no new file headers
/// share one length: any two accepted traces with samples have the same
/// sample count (a trace of no samples fixes nothing while no length is
/// fixed).
pub proof fn lemma_calls_common_length(w: WriterState, cs: Seq<WriterCall>, i: int, j: int)
    requires
        forall|k: int| 0 <= k < cs.len() ==> !(#[trigger] cs[k] is Header),
        0 <= i < cs.len(),
        0 <= j < cs.len(),
        accepted_at(w, cs, i),
        accepted_at(w, cs, j),
        count32(cs[i]->Trace_1.len() as int) != 0,
        count32(cs[j]->Trace_1.len() as int) != 0,
    ensures
        count32(cs[i]->Trace_1.len() as int) == count32(cs[j]->Trace_1.len() as int),
{
    lemma_lengths_follow(w, cs);
}

/// Builds SEG-Y files: the textual and binary file headers, then traces
/// that all have the same number of samples. The bytes accumulate in the
/// writer until taken out.
pub struct SegyWriter {
    output: Vec<u8>,
    traces_written: u64,
    samples_per_trace: u32,
    header_written: bool,
}

impl View for SegyWriter {
    type V = WriterState;

    closed spec fn view(&self) -> WriterState {
        WriterState {
            output: self.output@,
            traces_written: self.traces_written as nat,
            samples_per_trace: self.samples_per_trace as nat,
            header_written: self.header_written,
        }
    }
}

/// What a writer's state can hold: the fixed trace length fits in 32 bits
/// and the trace count in 64.
pub proof fn lemma_writer_bounds(w: &SegyWriter)
    ensures
        w@.samples_per_trace <= u32::MAX,
        w@.traces_written <= u64::MAX,
{
}

impl SegyWriter {
    /// A writer that has written nothing.
    pub fn new() -> (w: SegyWriter)
        ensures
            w@ == (WriterState {
                output: Seq::<u8>::empty(),
                traces_written: 0,
                samples_per_trace: 0,
                header_written: false,
            }),
    {
        SegyWriter { output: Vec::new(), traces_written: 0, samples_per_trace: 0, header_written: false }
    }

    /// Writes the 3200-byte textual and the 400-byte binary file header.
    /// A sample count in the binary header strictly between 0 and 65535
    /// fixes the length of every trace.
    pub fn write_header(&mut self, text_header: &TextHeader, binary_header: &BinaryHeader) -> (r:
        Result<(), SegyError>)
        requires
            text_header.wf(),
        ensures
            r is Ok,
            final(self)@ == state_after_header(old(self)@, *text_header, *binary_header),
            final(self)@ == after_call(old(self)@, WriterCall::Header(*text_header, *binary_header)),
    {
        let ghost o = self.output@;
        text_header.write_to(&mut self.output);
        binary_header.write_to(&mut self.output);
        let sp = binary_header.samples_per_trace as u32;
        if sp > 0 && sp < 65535 {
            self.samples_per_trace = sp;
        }
        self.header_written = true;
        Ok(())
    }

    /// Writes one trace: its 240-byte header, then its samples (IEEE-754
    /// bit patterns) in big-endian order. Refused, with nothing written,
    /// before the file headers or when the number of samples (taken as a
    /// 32-bit count) differs from the fixed one; the first trace fixes the
    /// count when the binary header did not.
    pub fn write_trace(&mut self, header: &TraceHeader, samples: &[u32]) -> (r: Result<(), SegyError>)
        requires
            old(self)@.traces_written < u64::MAX,
        ensures
            !old(self)@.header_written ==> (r matches Err(SegyError::InvalidFormat(m))
                && m@ == "Must write header before traces"@) && final(self)@ == old(self)@,
            old(self)@.header_written && !trace_accepted(old(self)@, samples@.len()) ==> (r matches Err(
                SegyError::DataMismatch(m),
            ) && m@ == mismatch_message(old(self)@.samples_per_trace, samples@.len()))
                && final(self)@ == old(self)@,
            trace_accepted(old(self)@, samples@.len()) ==> r is Ok && final(self)@ == state_after_trace(
                old(self)@,
                *header,
                samples@,
            ),
            final(self)@ == after_call(old(self)@, WriterCall::Trace(*header, samples@)),
            r is Ok <==> accepted(old(self)@, WriterCall::Trace(*header, samples@)),
    {
        if !self.header_written {
            return Err(SegyError::InvalidFormat("Must write header before traces".to_owned()));
        }
        let n32: u32 = (samples.len() as u64 % 4294967296) as u32;
        assert(n32 == count32(samples@.len() as int));
        let expected: u32 = if self.samples_per_trace == 0 { n32 } else { self.samples_per_trace };
        if n32 != expected {
            let mut m: Vec<char> = chars_of("Sample count mismatch: expected ");
            push_decimal(&mut m, self.samples_per_trace as u64);
            let got = chars_of(", got ");
            append_chars(&mut m, got.as_slice());
            push_decimal(&mut m, samples.len() as u64);
            assert(m@ =~= mismatch_message(old(self)@.samples_per_trace, samples@.len()));
            return Err(SegyError::DataMismatch(string_of(m.as_slice())));
        }
        self.samples_per_trace = expected;
        let next = self.traces_written + 1;
        let ghost o = self.output@;
        header.write_to(&mut self.output);
        let ghost with_header = self.output@;
        let mut i: usize = 0;
        assert(samples@.take(0) =~= Seq::<u32>::empty());
        while i < samples.len()
            invariant
                i <= samples@.len(),
                self.samples_per_trace == expected,
                self.header_written,
                self.traces_written == old(self).traces_written,
                self.output@ == with_header + samples_bytes(samples@.take(i as int)),
            decreases samples.len() - i,
        {
            push_u32(&mut self.output, samples[i]);
            proof {
                assert(samples@.take(i + 1).drop_last() =~= samples@.take(i as int));
                lemma_add_assoc(with_header, samples_bytes(samples@.take(i as int)), be32(samples@[i as int] as int));
            }
            i = i + 1;
        }
        proof {
            assert(samples@.take(samples@.len() as int) =~= samples@);
            lemma_add_assoc(o, trace_header_bytes(*header), samples_bytes(samples@));
        }
        self.traces_written = next;
        Ok(())
    }

    /// Writes one trace whose samples are IEEE-754 single-precision bit
    /// patterns; the same as `write_trace`.
    pub fn write_trace_raw_f32(&mut self, header: &TraceHeader, samples: &[u32]) -> (r: Result<
        (),
        SegyError,
    >)
        requires
            old(self)@.traces_written < u64::MAX,
        ensures
            !old(self)@.header_written ==> (r matches Err(SegyError::InvalidFormat(m))
                && m@ == "Must write header before traces"@) && final(self)@ == old(self)@,
            old(self)@.header_written && !trace_accepted(old(self)@, samples@.len()) ==> (r matches Err(
                SegyError::DataMismatch(m),
            ) && m@ == mismatch_message(old(self)@.samples_per_trace, samples@.len()))
                && final(self)@ == old(self)@,
            trace_accepted(old(self)@, samples@.len()) ==> r is Ok && final(self)@ == state_after_trace(
                old(self)@,
                *header,
                samples@,
            ),
            final(self)@ == after_call(old(self)@, WriterCall::Trace(*header, samples@)),
            r is Ok <==> accepted(old(self)@, WriterCall::Trace(*header, samples@)),
    {
        self.write_trace(header, samples)
    }

    /// The number of traces written.
    pub fn traces_written(&self) -> (n: u64)
        ensures
            n == self@.traces_written,
    {
        self.traces_written
    }

    /// Takes out the bytes written so far.
    pub fn take_output(&mut self) -> (bytes: Vec<u8>)
        ensures
            bytes@ == old(self)@.output,
            bytes@ == handed_out(old(self)@, WriterCall::Take),
            final(self)@ == after_call(old(self)@, WriterCall::Take),
            final(self)@ == (WriterState { output: Seq::<u8>::empty(), ..old(self)@ }),
    {
        let mut empty: Vec<u8> = Vec::new();
        std::mem::swap(&mut empty, &mut self.output);
        empty
    }

    /// Ends the file and hands back the bytes not yet taken out.
    pub fn finish(self) -> (r: Result<Vec<u8>, SegyError>)
        ensures
            (r matches Ok(bytes) && bytes@ == self@.output),
    {
        Ok(self.output)
    }

    /// Nothing is held back from the output, so flushing changes nothing.
    pub fn flush(&mut self) -> (r: Result<(), SegyError>)
        ensures
            r is Ok,
            final(self)@ == old(self)@,
            final(self)@ == after_call(old(self)@, WriterCall::Flush),
    {
        Ok(())
    }
}

} // verus!
