use crate::encode::{be16, be32, lemma_add_assoc, lemma_within, push_i32, push_u16, push_zeros, twos32, zeros};
use crate::order::strings_view;
use crate::text::{chars_of, string_of};
use vstd::prelude::*;
use vstd::utf8::encode_utf8;

verus! {

/// Size in bytes of the textual file header.
pub const TEXT_HEADER_SIZE: usize = 3200;

/// Size in bytes of the binary file header.
pub const BINARY_HEADER_SIZE: usize = 400;

/// Number of 80-column lines in the textual file header.
pub const TEXT_HEADER_LINES: usize = 40;

/// Width of one line of the textual file header.
pub const TEXT_LINE_WIDTH: usize = 80;

/// EBCDIC (code page 037) byte of each ASCII character.
pub const EBCDIC_037: [u8; 128] = [
    0, 1, 2, 3, 55, 45, 46, 47, 22, 5, 37, 11, 12, 13, 14, 15,
    16, 17, 18, 19, 60, 61, 50, 38, 24, 25, 63, 39, 28, 29, 30, 31,
    64, 90, 127, 123, 91, 108, 80, 125, 77, 93, 92, 78, 107, 96, 75, 97,
    240, 241, 242, 243, 244, 245, 246, 247, 248, 249, 122, 94, 76, 126, 110, 111,
    124, 193, 194, 195, 196, 197, 198, 199, 200, 201, 209, 210, 211, 212, 213, 214,
    215, 216, 217, 226, 227, 228, 229, 230, 231, 232, 233, 186, 224, 187, 176, 109,
    121, 129, 130, 131, 132, 133, 134, 135, 136, 137, 145, 146, 147, 148, 149, 150,
    151, 152, 153, 162, 163, 164, 165, 166, 167, 168, 169, 192, 79, 208, 161, 7,
];

/// The SEG-Y revision a file declares.
#[derive(Debug, Clone, Copy, PartialEq, Eq, Structural)]
pub enum SegyRevision {
    Rev0,
    Rev1,
    Rev2,
}

/// The revision number written at bytes 3501-3502: major revision in the
/// high byte, minor in the low byte.
pub open spec fn revision_code(r: SegyRevision) -> u16 {
    match r {
        SegyRevision::Rev0 => 0x0000,
        SegyRevision::Rev1 => 0x0100,
        SegyRevision::Rev2 => 0x0200,
    }
}

impl SegyRevision {
    /// The revision number this revision writes.
    pub fn code(self) -> (c: u16)
        ensures
            c == revision_code(self),
    {
        match self {
            SegyRevision::Rev0 => 0x0000,
            SegyRevision::Rev1 => 0x0100,
            SegyRevision::Rev2 => 0x0200,
        }
    }
}

/// The 400-byte binary file header.
#[derive(Debug, Clone, Copy)]
pub struct BinaryHeader {
    pub job_id: i32,
    pub line_number: i32,
    pub reel_number: i32,
    pub traces_per_ensemble: u16,
    pub aux_traces_per_ensemble: u16,
    pub sample_interval: u16,
    pub sample_interval_original: u16,
    pub samples_per_trace: u16,
    pub samples_per_trace_original: u16,
    pub data_sample_format: u16,
    pub ensemble_fold: u16,
    pub trace_sorting: u16,
    pub measurement_system: u16,
    pub segy_revision: u16,
    pub fixed_length_trace: u16,
    pub extended_text_headers: u16,
}

impl BinaryHeader {
    /// The default header: IEEE single-precision samples (format code 5),
    /// ensemble fold 1, metres, fixed-length traces, revision 2.
    pub open spec fn initial() -> BinaryHeader {
        BinaryHeader {
            job_id: 0,
            line_number: 0,
            reel_number: 0,
            traces_per_ensemble: 0,
            aux_traces_per_ensemble: 0,
            sample_interval: 0,
            sample_interval_original: 0,
            samples_per_trace: 0,
            samples_per_trace_original: 0,
            data_sample_format: 5,
            ensemble_fold: 1,
            trace_sorting: 0,
            measurement_system: 1,
            segy_revision: 0x0200,
            fixed_length_trace: 1,
            extended_text_headers: 0,
        }
    }

    /// The header declaring revision `rev`; a revision-0 file has no
    /// fixed-length-trace flag.
    pub fn with_revision(self, rev: SegyRevision) -> (h: BinaryHeader)
        ensures
            h == (BinaryHeader {
                segy_revision: revision_code(rev),
                fixed_length_trace: if rev == SegyRevision::Rev0 { 0 } else { 1 },
                ..self
            }),
    {
        let fixed: u16 = match rev {
            SegyRevision::Rev0 => 0,
            _ => 1,
        };
        BinaryHeader { segy_revision: rev.code(), fixed_length_trace: fixed, ..self }
    }
}

impl Default for BinaryHeader {
    fn default() -> (h: BinaryHeader)
        ensures
            h == BinaryHeader::initial(),
    {
        BinaryHeader {
            job_id: 0,
            line_number: 0,
            reel_number: 0,
            traces_per_ensemble: 0,
            aux_traces_per_ensemble: 0,
            sample_interval: 0,
            sample_interval_original: 0,
            samples_per_trace: 0,
            samples_per_trace_original: 0,
            data_sample_format: 5,
            ensemble_fold: 1,
            trace_sorting: 0,
            measurement_system: 1,
            segy_revision: 0x0200,
            fixed_length_trace: 1,
            extended_text_headers: 0,
        }
    }
}

/// The bytes 3201-3230 of the file: job, line and reel numbers, then the
/// trace counts, intervals, sample counts, format, fold and sorting.
#[verifier::opaque]
pub open spec fn binary_leading_bytes(h: BinaryHeader) -> Seq<u8> {
    be32(twos32(h.job_id)) + be32(twos32(h.line_number)) + be32(twos32(h.reel_number)) + be16(
        h.traces_per_ensemble as int,
    ) + be16(h.aux_traces_per_ensemble as int) + be16(h.sample_interval as int) + be16(
        h.sample_interval_original as int,
    ) + be16(h.samples_per_trace as int) + be16(h.samples_per_trace_original as int) + be16(
        h.data_sample_format as int,
    ) + be16(h.ensemble_fold as int) + be16(h.trace_sorting as int)
}

/// The 400 bytes of a binary header as `write_to` emits them.
pub open spec fn binary_header_bytes(h: BinaryHeader) -> Seq<u8> {
    binary_leading_bytes(h) + zeros(24) + be16(h.measurement_system as int) + zeros(244) + be16(
        h.segy_revision as int,
    ) + be16(h.fixed_length_trace as int) + be16(h.extended_text_headers as int) + zeros(94)
}

/// Byte lengths of the binary header and its leading fields.
pub proof fn lemma_binary_lengths(h: BinaryHeader)
    ensures
        binary_leading_bytes(h).len() == 30,
        binary_header_bytes(h).len() == 400,
{
    reveal(binary_leading_bytes);
}

/// Where the fields of a binary header sit among the 400 bytes that
/// `write_to` emits (SEG-Y positions 3201-3600, counted from 0 here): the
/// job, line and reel numbers, the trace counts, the sample intervals and
/// counts, the format code, fold and sorting from 0 to 30, the measurement
/// system at 54, the revision at 300, the fixed-length flag at 302, the
/// count of extended text headers at 304, and zeros elsewhere.
pub proof fn lemma_binary_header_positions(h: BinaryHeader)
    ensures
        ({
            let b = binary_header_bytes(h);
            &&& b.len() == 400
            &&& b.subrange(0, 4) == be32(twos32(h.job_id))
            &&& b.subrange(4, 8) == be32(twos32(h.line_number))
            &&& b.subrange(8, 12) == be32(twos32(h.reel_number))
            &&& b.subrange(12, 14) == be16(h.traces_per_ensemble as int)
            &&& b.subrange(14, 16) == be16(h.aux_traces_per_ensemble as int)
            &&& b.subrange(16, 18) == be16(h.sample_interval as int)
            &&& b.subrange(18, 20) == be16(h.sample_interval_original as int)
            &&& b.subrange(20, 22) == be16(h.samples_per_trace as int)
            &&& b.subrange(22, 24) == be16(h.samples_per_trace_original as int)
            &&& b.subrange(24, 26) == be16(h.data_sample_format as int)
            &&& b.subrange(26, 28) == be16(h.ensemble_fold as int)
            &&& b.subrange(28, 30) == be16(h.trace_sorting as int)
            &&& b.subrange(30, 54) == zeros(24)
            &&& b.subrange(54, 56) == be16(h.measurement_system as int)
            &&& b.subrange(56, 300) == zeros(244)
            &&& b.subrange(300, 302) == be16(h.segy_revision as int)
            &&& b.subrange(302, 304) == be16(h.fixed_length_trace as int)
            &&& b.subrange(304, 306) == be16(h.extended_text_headers as int)
            &&& b.subrange(306, 400) == zeros(94)
        }),
{
    lemma_binary_lengths(h);
    let l = binary_leading_bytes(h);
    let rest = zeros(24) + be16(h.measurement_system as int) + zeros(244) + be16(h.segy_revision as int) + be16(
        h.fixed_length_trace as int,
    ) + be16(h.extended_text_headers as int) + zeros(94);
    let b = binary_header_bytes(h);
    assert(b =~= Seq::<u8>::empty() + l + rest);
    assert(l.subrange(0, 4) == be32(twos32(h.job_id))) by {
        reveal(binary_leading_bytes);
        assert(l.subrange(0, 4) =~= be32(twos32(h.job_id)));
    }
    lemma_within(Seq::<u8>::empty(), l, rest, 0, 4);
    assert(l.subrange(4, 8) == be32(twos32(h.line_number))) by {
        reveal(binary_leading_bytes);
        assert(l.subrange(4, 8) =~= be32(twos32(h.line_number)));
    }
    lemma_within(Seq::<u8>::empty(), l, rest, 4, 4);
    assert(l.subrange(8, 12) == be32(twos32(h.reel_number))) by {
        reveal(binary_leading_bytes);
        assert(l.subrange(8, 12) =~= be32(twos32(h.reel_number)));
    }
    lemma_within(Seq::<u8>::empty(), l, rest, 8, 4);
    assert(l.subrange(12, 14) == be16(h.traces_per_ensemble as int)) by {
        reveal(binary_leading_bytes);
        assert(l.subrange(12, 14) =~= be16(h.traces_per_ensemble as int));
    }
    lemma_within(Seq::<u8>::empty(), l, rest, 12, 2);
    assert(l.subrange(14, 16) == be16(h.aux_traces_per_ensemble as int)) by {
        reveal(binary_leading_bytes);
        assert(l.subrange(14, 16) =~= be16(h.aux_traces_per_ensemble as int));
    }
    lemma_within(Seq::<u8>::empty(), l, rest, 14, 2);
    assert(l.subrange(16, 18) == be16(h.sample_interval as int)) by {
        reveal(binary_leading_bytes);
        assert(l.subrange(16, 18) =~= be16(h.sample_interval as int));
    }
    lemma_within(Seq::<u8>::empty(), l, rest, 16, 2);
    assert(l.subrange(18, 20) == be16(h.sample_interval_original as int)) by {
        reveal(binary_leading_bytes);
        assert(l.subrange(18, 20) =~= be16(h.sample_interval_original as int));
    }
    lemma_within(Seq::<u8>::empty(), l, rest, 18, 2);
    assert(l.subrange(20, 22) == be16(h.samples_per_trace as int)) by {
        reveal(binary_leading_bytes);
        assert(l.subrange(20, 22) =~= be16(h.samples_per_trace as int));
    }
    lemma_within(Seq::<u8>::empty(), l, rest, 20, 2);
    assert(l.subrange(22, 24) == be16(h.samples_per_trace_original as int)) by {
        reveal(binary_leading_bytes);
        assert(l.subrange(22, 24) =~= be16(h.samples_per_trace_original as int));
    }
    lemma_within(Seq::<u8>::empty(), l, rest, 22, 2);
    assert(l.subrange(24, 26) == be16(h.data_sample_format as int)) by {
        reveal(binary_leading_bytes);
        assert(l.subrange(24, 26) =~= be16(h.data_sample_format as int));
    }
    lemma_within(Seq::<u8>::empty(), l, rest, 24, 2);
    assert(l.subrange(26, 28) == be16(h.ensemble_fold as int)) by {
        reveal(binary_leading_bytes);
        assert(l.subrange(26, 28) =~= be16(h.ensemble_fold as int));
    }
    lemma_within(Seq::<u8>::empty(), l, rest, 26, 2);
    assert(l.subrange(28, 30) == be16(h.trace_sorting as int)) by {
        reveal(binary_leading_bytes);
        assert(l.subrange(28, 30) =~= be16(h.trace_sorting as int));
    }
    lemma_within(Seq::<u8>::empty(), l, rest, 28, 2);
    assert(b.subrange(30, 54) =~= zeros(24));
    assert(b.subrange(54, 56) =~= be16(h.measurement_system as int));
    assert(b.subrange(56, 300) =~= zeros(244));
    assert(b.subrange(300, 302) =~= be16(h.segy_revision as int));
    assert(b.subrange(302, 304) =~= be16(h.fixed_length_trace as int));
    assert(b.subrange(304, 306) =~= be16(h.extended_text_headers as int));
    assert(b.subrange(306, 400) =~= zeros(94));
}

impl BinaryHeader {
    fn write_leading(&self, out: &mut Vec<u8>)
        ensures
            final(out)@ == old(out)@ + binary_leading_bytes(*self),
    {
        reveal(binary_leading_bytes);
        let ghost o = out@;
        push_i32(out, self.job_id);
        push_i32(out, self.line_number);
        push_i32(out, self.reel_number);
        push_u16(out, self.traces_per_ensemble);
        push_u16(out, self.aux_traces_per_ensemble);
        push_u16(out, self.sample_interval);
        push_u16(out, self.sample_interval_original);
        push_u16(out, self.samples_per_trace);
        push_u16(out, self.samples_per_trace_original);
        push_u16(out, self.data_sample_format);
        push_u16(out, self.ensemble_fold);
        push_u16(out, self.trace_sorting);
        assert(out@ =~= o + binary_leading_bytes(*self));
    }

    /// Appends the 400-byte encoding of the header, fields in big-endian
    /// order at their SEG-Y positions and zeros elsewhere.
    pub fn write_to(&self, out: &mut Vec<u8>)
        ensures
            final(out)@ == old(out)@ + binary_header_bytes(*self),
            final(out)@.len() == old(out)@.len() + BINARY_HEADER_SIZE,
    {
        proof {
            lemma_binary_lengths(*self);
        }
        let ghost o = out@;
        self.write_leading(out);
        push_zeros(out, 24);
        push_u16(out, self.measurement_system);
        push_zeros(out, 244);
        push_u16(out, self.segy_revision);
        push_u16(out, self.fixed_length_trace);
        push_u16(out, self.extended_text_headers);
        push_zeros(out, 94);
        assert(out@ =~= o + binary_header_bytes(*self));
    }
}

/// The 80-column textual file header, as 40 lines of text.
#[derive(Debug, Clone)]
pub struct TextHeader {
    /// The lines, first to last; each is written truncated or padded to 80
    /// columns.
    pub lines: Vec<String>,
    /// Write the lines as UTF-8 text padded with ASCII spaces; otherwise as
    /// EBCDIC (code page 037) padded with EBCDIC spaces.
    pub use_utf8: bool,
}

/// The label that opens line `n` (1-based): `C`, the line number right
/// aligned in two columns, and a space.
pub open spec fn card_label(n: nat) -> Seq<char> {
    seq![
        'C',
        if n < 10 { ' ' } else { ((n / 10) + 48) as char },
        ((n % 10) + 48) as char,
        ' ',
    ]
}

/// The EBCDIC byte of `c`; characters outside ASCII become the EBCDIC space.
pub open spec fn ebcdic_of(c: char) -> u8 {
    if (c as u32) < 128 {
        EBCDIC_037@[c as u32 as int]
    } else {
        0x40
    }
}

/// `b` cut or padded with `pad` to one 80-column line.
pub open spec fn fit_line(b: Seq<u8>, pad: u8) -> Seq<u8> {
    if b.len() >= 80 {
        b.take(80)
    } else {
        b + Seq::new((80 - b.len()) as nat, |i: int| pad)
    }
}

/// The 80 bytes of one line of text.
pub open spec fn line_bytes(line: Seq<char>, utf8: bool) -> Seq<u8> {
    if utf8 {
        fit_line(encode_utf8(line), 0x20)
    } else {
        fit_line(line.map_values(|c: char| ebcdic_of(c)), 0x40)
    }
}

/// The bytes of `lines`, one 80-byte line after another.
pub open spec fn lines_bytes(lines: Seq<Seq<char>>, utf8: bool) -> Seq<u8>
    decreases lines.len(),
{
    if lines.len() == 0 {
        Seq::<u8>::empty()
    } else {
        lines_bytes(lines.drop_last(), utf8) + line_bytes(lines.last(), utf8)
    }
}

/// The bytes of a textual header as `write_to` emits them.
pub open spec fn text_header_bytes(h: TextHeader) -> Seq<u8> {
    lines_bytes(strings_view(h.lines@), h.use_utf8)
}

/// Each line takes 80 bytes.
pub proof fn lemma_lines_bytes_len(lines: Seq<Seq<char>>, utf8: bool)
    ensures
        lines_bytes(lines, utf8).len() == 80 * lines.len(),
    decreases lines.len(),
{
    if lines.len() > 0 {
        lemma_lines_bytes_len(lines.drop_last(), utf8);
    }
}

/// The two-digit label of line `n`, as characters.
fn push_card_label(out: &mut Vec<char>, n: usize)
    requires
        1 <= n <= 40,
    ensures
        final(out)@ == old(out)@ + card_label(n as nat),
{
    let ghost o = out@;
    out.push('C');
    if n < 10 {
        out.push(' ');
    } else {
        out.push((((n / 10) as u8) + 48) as char);
    }
    out.push((((n % 10) as u8) + 48) as char);
    out.push(' ');
    assert(out@ =~= o + card_label(n as nat));
}

impl TextHeader {
    /// Forty lines and nothing else.
    pub open spec fn wf(&self) -> bool {
        self.lines@.len() == TEXT_HEADER_LINES
    }

    /// The header whose every line holds only its label, written as EBCDIC.
    pub fn new() -> (h: TextHeader)
        ensures
            h.wf(),
            !h.use_utf8,
            forall|i: int| 0 <= i < 40 ==> #[trigger] h.lines@[i]@ == card_label((i + 1) as nat),
    {
        let mut lines: Vec<String> = Vec::new();
        let mut n: usize = 1;
        while n <= 40
            invariant
                1 <= n <= 41,
                lines@.len() == n - 1,
                forall|i: int| 0 <= i < n - 1 ==> #[trigger] lines@[i]@ == card_label((i + 1) as nat),
            decreases 41 - n,
        {
            let mut v: Vec<char> = Vec::new();
            push_card_label(&mut v, n);
            assert(v@ =~= card_label(n as nat));
            lines.push(string_of(v.as_slice()));
            n = n + 1;
        }
        TextHeader { lines, use_utf8: false }
    }

    /// Sets line `n` (1-based) to its label followed by `text`; a line
    /// number outside 1 to 40 changes nothing.
    pub fn set_line(&mut self, n: usize, text: &str)
        requires
            old(self).wf(),
        ensures
            final(self).wf(),
            final(self).use_utf8 == old(self).use_utf8,
            1 <= n <= 40 ==> final(self).lines@ == old(self).lines@.update(n - 1, final(self).lines@[n - 1])
                && final(self).lines@[n - 1]@ == card_label(n as nat) + text@,
            !(1 <= n <= 40) ==> *final(self) == *old(self),
    {
        if 1 <= n && n <= 40 {
            let mut v: Vec<char> = Vec::new();
            push_card_label(&mut v, n);
            let t = chars_of(text);
            let ghost o = v@;
            crate::text::append_chars(&mut v, t.as_slice());
            let line = string_of(v.as_slice());
            self.lines.set(n - 1, line);
        }
    }

    /// Appends the 3200-byte encoding: each line cut or padded to 80 bytes.
    pub fn write_to(&self, out: &mut Vec<u8>)
        requires
            self.wf(),
        ensures
            final(out)@ == old(out)@ + text_header_bytes(*self),
            final(out)@.len() == old(out)@.len() + TEXT_HEADER_SIZE,
    {
        let ghost lv = strings_view(self.lines@);
        let mut i: usize = 0;
        assert(lv.take(0) =~= Seq::<Seq<char>>::empty());
        while i < self.lines.len()
            invariant
                i <= self.lines@.len() == 40,
                lv == strings_view(self.lines@),
                out@ == old(out)@ + lines_bytes(lv.take(i as int), self.use_utf8),
            decreases self.lines.len() - i,
        {
            let ghost before = out@;
            self.write_line(i, out);
            proof {
                assert(lv.take(i + 1).drop_last() =~= lv.take(i as int));
                assert(lv.take(i + 1).last() == self.lines@[i as int]@);
                lemma_add_assoc(
                    old(out)@,
                    lines_bytes(lv.take(i as int), self.use_utf8),
                    line_bytes(self.lines@[i as int]@, self.use_utf8),
                );
            }
            i = i + 1;
        }
        proof {
            assert(lv.take(40) =~= lv);
            lemma_lines_bytes_len(lv, self.use_utf8);
        }
    }

    fn write_line(&self, i: usize, out: &mut Vec<u8>)
        requires
            i < self.lines@.len(),
        ensures
            final(out)@ == old(out)@ + line_bytes(self.lines@[i as int]@, self.use_utf8),
    {
        let line = &self.lines[i];
        let ghost o = out@;
        let mut b: Vec<u8> = Vec::new();
        let pad: u8;
        if self.use_utf8 {
            let bytes = line.as_str().as_bytes();
            let mut k: usize = 0;
            while k < bytes.len() && k < 80
                invariant
                    k <= bytes@.len(),
                    k <= 80,
                    b@ == bytes@.take(k as int),
                decreases bytes.len() - k,
            {
                b.push(bytes[k]);
                k = k + 1;
                assert(b@ =~= bytes@.take(k as int));
            }
            pad = 0x20;
            assert(bytes@ == encode_utf8(line@));
        } else {
            let cs = chars_of(line.as_str());
            let ghost mapped = line@.map_values(|c: char| ebcdic_of(c));
            let mut k: usize = 0;
            while k < cs.len() && k < 80
                invariant
                    cs@ == line@,
                    mapped == line@.map_values(|c: char| ebcdic_of(c)),
                    k <= cs@.len(),
                    k <= 80,
                    b@ == mapped.take(k as int),
                decreases cs.len() - k,
            {
                let c = cs[k];
                let u = c as u32;
                let e: u8 = if u < 128 { EBCDIC_037[u as usize] } else { 0x40 };
                b.push(e);
                k = k + 1;
                assert(b@ =~= mapped.take(k as int));
            }
            pad = 0x40;
        }
        let ghost src = if self.use_utf8 {
            encode_utf8(line@)
        } else {
            line@.map_values(|c: char| ebcdic_of(c))
        };
        assert(b@ == src.take(b@.len() as int));
        assert(b@.len() == 80 || b@.len() == src.len());
        if b.len() < 80 {
            assert(b@ =~= src);
            assert(b@ =~= src + Seq::new(0, |i: int| pad));
            while b.len() < 80
                invariant
                    src.len() < 80,
                    src.len() <= b@.len() <= 80,
                    b@ =~= src + Seq::new((b@.len() - src.len()) as nat, |i: int| pad),
                decreases 80 - b.len(),
            {
                b.push(pad);
                assert(b@ =~= src + Seq::new((b@.len() - src.len()) as nat, |i: int| pad));
            }
        } else {
            assert(src.len() >= 80);
        }
        assert(b@ =~= fit_line(src, pad));
        let mut j: usize = 0;
        while j < 80
            invariant
                j <= 80,
                b@.len() == 80,
                out@ == o + b@.take(j as int),
            decreases 80 - j,
        {
            out.push(b[j]);
            j = j + 1;
            assert(out@ =~= o + b@.take(j as int));
        }
        assert(b@.take(80) =~= b@);
    }
}


impl Default for TextHeader {
    /// The header whose every line holds only its label, written as EBCDIC.
    fn default() -> (h: TextHeader)
        ensures
            h.wf(),
            !h.use_utf8,
            forall|i: int| 0 <= i < 40 ==> #[trigger] h.lines@[i]@ == card_label((i + 1) as nat),
    {
        TextHeader::new()
    }
}

} // verus!
