use crate::error::SegyError;
use crate::order::strings_view;
use crate::text::{
    append_chars, chars_of, contains_char, float_literal, is_float_literal, last_piece,
    last_piece_chars, parse_u32, parse_u32_spec, pieces_view, split, split_chars, string_of, trim,
    trim_chars, words, words_of, Sep,
};
use crate::time::{parse_utc, spec_parse_utc, CivilTime, UtcTime};
use vstd::prelude::*;

verus! {

/// The `chrono` format of the time stamp that opens a header line.
pub open spec fn header_time_format() -> Seq<char> {
    "%Y-%m-%d %H:%M:%S"@
}

/// The fields of the first header line of a recording.
pub struct HeaderFields {
    pub time: CivilTime,
    pub status: u32,
    pub x: Seq<char>,
    pub y: Seq<char>,
    pub elevation: Seq<char>,
}

/// What has been read of a recording after some of its lines.
pub struct ReadState {
    /// The first header line, once one was read.
    pub header: Option<HeaderFields>,
    /// The sample tokens read, in order.
    pub samples: Seq<Seq<char>>,
    /// The message of the first error, once one occurred.
    pub error: Option<Seq<char>>,
}

/// The state before any line.
pub open spec fn initial_read_state() -> ReadState {
    ReadState { header: None, samples: Seq::empty(), error: None }
}

/// A header line: it holds a comma and splits at commas into at least five
/// fields.
pub open spec fn is_header_line(t: Seq<char>) -> bool {
    t.contains(',') && split(t, Sep::Char(',')).len() >= 5
}

/// The first token that is not a floating-point literal.
pub open spec fn first_invalid(toks: Seq<Seq<char>>) -> Option<Seq<char>>
    decreases toks.len(),
{
    if toks.len() == 0 {
        None
    } else if !is_float_literal(toks[0]) {
        Some(toks[0])
    } else {
        first_invalid(toks.drop_first())
    }
}

/// The message of a time stamp that chrono refuses.
pub open spec fn time_error_message(field: Seq<char>, err: Seq<char>) -> Seq<char> {
    "Failed to parse time '"@ + field + "': "@ + err
}

/// The message of a sample token that is not a number.
pub open spec fn float_error_message(tok: Seq<char>) -> Seq<char> {
    "Failed to parse float '"@ + tok + "': invalid float literal"@
}

/// Reading one line of a recording. Lines are trimmed; empty lines are
/// skipped. A header line's first field is a time stamp: chrono must
/// accept it, and the first header line gives the time, the status code
/// (0 unless it reads as a `u32`), the coordinates and the elevation. Any
/// other line is a line of samples separated by spaces or tabs, each of
/// which must be a floating-point literal. After an error nothing changes.
pub open spec fn read_line(st: ReadState, line: Seq<char>) -> ReadState {
    let t = trim(line);
    if st.error is Some || t.len() == 0 {
        st
    } else if is_header_line(t) {
        let f = split(t, Sep::Char(','));
        match spec_parse_utc(f[0], header_time_format()) {
            Err(e) => ReadState { error: Some(time_error_message(f[0], e)), ..st },
            Ok(ct) => if st.header is None {
                ReadState {
                    header: Some(
                        HeaderFields {
                            time: ct,
                            status: match parse_u32_spec(trim(f[1])) {
                                Some(v) => v,
                                None => 0,
                            },
                            x: trim(f[2]),
                            y: trim(f[3]),
                            elevation: trim(f[4]),
                        },
                    ),
                    ..st
                }
            } else {
                st
            },
        }
    } else {
        let toks = words(t, Sep::Blank);
        match first_invalid(toks) {
            Some(bad) => ReadState { error: Some(float_error_message(bad)), ..st },
            None => ReadState { samples: st.samples + toks, ..st },
        }
    }
}

/// Reading lines one after another.
pub open spec fn read_lines(lines: Seq<Seq<char>>) -> ReadState
    decreases lines.len(),
{
    if lines.len() == 0 {
        initial_read_state()
    } else {
        read_line(read_lines(lines.drop_last()), lines.last())
    }
}

/// The lines of a text: the pieces between line feeds (a carriage return
/// before a line feed is removed with the rest of the white space when a
/// line is trimmed).
pub open spec fn text_lines(content: Seq<char>) -> Seq<Seq<char>> {
    split(content, Sep::Char('\n'))
}

/// The device identifier a file stem names: what follows its last `-`.
pub open spec fn stem_device_id(stem: Option<Seq<char>>) -> Seq<char> {
    match stem {
        Some(s) => last_piece(s, '-'),
        None => Seq::empty(),
    }
}

/// A recording of one station over one minute, as its text gives it: a
/// header line `time,status,x,y,elevation` and lines of samples. The
/// coordinates and samples keep their text; each sample is a valid
/// floating-point literal.
#[derive(Debug)]
pub struct MseismFile {
    pub device_id: String,
    pub start_time: UtcTime,
    pub status_code: u32,
    pub x: String,
    pub y: String,
    pub elevation: String,
    pub samples: Vec<String>,
    pub sample_count: usize,
}

/// The message of a recording without a header line.
pub open spec fn no_header_message() -> Seq<char> {
    "No valid header line found in file"@
}

/// What reading the recording `content`, stored under the file stem
/// `stem`, gives: the first error, or the missing header, or the file.
pub open spec fn mseism_outcome(content: Seq<char>, stem: Option<Seq<char>>, r: Result<MseismFile, SegyError>) -> bool {
    let st = read_lines(text_lines(content));
    match st.error {
        Some(e) => r matches Err(SegyError::Parse(m)) && m@ == e,
        None => match st.header {
            None => r matches Err(SegyError::Parse(m)) && m@ == no_header_message(),
            Some(h) => r matches Ok(f) && {
                &&& f.device_id@ == stem_device_id(stem)
                &&& f.start_time@ == h.time
                &&& f.status_code == h.status
                &&& f.x@ == h.x
                &&& f.y@ == h.y
                &&& f.elevation@ == h.elevation
                &&& strings_view(f.samples@) == st.samples
                &&& f.sample_count == st.samples.len()
            },
        },
    }
}

struct Reader {
    header: Option<(UtcTime, u32, Vec<char>, Vec<char>, Vec<char>)>,
    samples: Vec<String>,
    error: Option<Vec<char>>,
}

impl Reader {
    spec fn state(&self) -> ReadState {
        ReadState {
            header: match self.header {
                Some((t, s, x, y, e)) => Some(HeaderFields { time: t@, status: s, x: x@, y: y@, elevation: e@ }),
                None => None,
            },
            samples: strings_view(self.samples@),
            error: match self.error {
                Some(e) => Some(e@),
                None => None,
            },
        }
    }
}

proof fn lemma_first_invalid_skip(toks: Seq<Seq<char>>, k: int)
    requires
        0 <= k <= toks.len(),
        forall|i: int| 0 <= i < k ==> is_float_literal(#[trigger] toks[i]),
    ensures
        first_invalid(toks) == first_invalid(toks.skip(k)),
    decreases k,
{
    if k > 0 {
        lemma_first_invalid_skip(toks.drop_first(), k - 1);
        assert(toks.drop_first().skip(k - 1) =~= toks.skip(k));
    } else {
        assert(toks.skip(0) =~= toks);
    }
}

fn read_sample_line(rd: &mut Reader, t: &[char])
    requires
        old(rd).error is None,
    ensures
        final(rd).header == old(rd).header,
        final(rd).state() == (match first_invalid(words(t@, Sep::Blank)) {
            Some(bad) => ReadState { error: Some(float_error_message(bad)), ..old(rd).state() },
            None => ReadState {
                samples: old(rd).state().samples + words(t@, Sep::Blank),
                ..old(rd).state()
            },
        }),
{
    let toks = words_of(t, Sep::Blank);
    let ghost tv = pieces_view(toks@);
    let mut k: usize = 0;
    while k < toks.len()
        invariant
            *rd == *old(rd),
            rd.error is None,
            tv == pieces_view(toks@),
            tv == words(t@, Sep::Blank),
            k <= toks@.len(),
            forall|i: int| 0 <= i < k ==> is_float_literal(#[trigger] tv[i]),
        decreases toks.len() - k,
    {
        let tok = &toks[k];
        assert(tok@ == tv[k as int]);
        if !float_literal(tok.as_slice()) {
            let mut m: Vec<char> = chars_of("Failed to parse float '");
            append_chars(&mut m, tok.as_slice());
            let tail = chars_of("': invalid float literal");
            append_chars(&mut m, tail.as_slice());
            proof {
                lemma_first_invalid_skip(tv, k as int);
                assert(tv.skip(k as int)[0] == tv[k as int]);
                assert(m@ =~= float_error_message(tv[k as int]));
            }
            rd.error = Some(m);
            return;
        }
        k = k + 1;
    }
    proof {
        lemma_first_invalid_skip(tv, tv.len() as int);
        assert(tv.skip(tv.len() as int) =~= Seq::<Seq<char>>::empty());
    }
    let ghost start = strings_view(rd.samples@);
    let mut j: usize = 0;
    assert(tv.take(0) =~= Seq::<Seq<char>>::empty());
    assert(start + tv.take(0) =~= start);
    while j < toks.len()
        invariant
            rd.error is None,
            rd.header == old(rd).header,
            tv == pieces_view(toks@),
            tv == words(t@, Sep::Blank),
            start == strings_view(old(rd).samples@),
            j <= toks@.len(),
            strings_view(rd.samples@) == start + tv.take(j as int),
        decreases toks.len() - j,
    {
        let s = string_of(toks[j].as_slice());
        assert(s@ == tv[j as int]);
        let ghost before = rd.samples@;
        rd.samples.push(s);
        assert(strings_view(rd.samples@) =~= strings_view(before).push(tv[j as int]));
        assert(start + tv.take(j + 1) =~= (start + tv.take(j as int)).push(tv[j as int]));
        j = j + 1;
    }
    assert(tv.take(tv.len() as int) =~= tv);
}

fn read_one_line(rd: &mut Reader, line: &[char])
    ensures
        final(rd).state() == read_line(old(rd).state(), line@),
{
    if rd.error.is_some() {
        return;
    }
    let t = trim_chars(line);
    if t.len() == 0 {
        return;
    }
    if contains_char(t.as_slice(), ',') {
        let f = split_chars(t.as_slice(), Sep::Char(','));
        if f.len() >= 5 {
            let ghost fv = pieces_view(f@);
            assert(fv[0] == f@[0]@);
            let f0 = string_of(f[0].as_slice());
            match parse_utc(f0.as_str(), "%Y-%m-%d %H:%M:%S") {
                Err(e) => {
                    let mut m: Vec<char> = chars_of("Failed to parse time '");
                    append_chars(&mut m, f[0].as_slice());
                    let mid = chars_of("': ");
                    append_chars(&mut m, mid.as_slice());
                    let ec = chars_of(e.as_str());
                    append_chars(&mut m, ec.as_slice());
                    assert(m@ =~= time_error_message(fv[0], e@));
                    rd.error = Some(m);
                },
                Ok(time) => {
                    if rd.header.is_none() {
                        assert(fv[1] == f@[1]@);
                        assert(fv[2] == f@[2]@);
                        assert(fv[3] == f@[3]@);
                        assert(fv[4] == f@[4]@);
                        let st = trim_chars(f[1].as_slice());
                        let status: u32 = match parse_u32(st.as_slice()) {
                            Some(v) => v,
                            None => 0,
                        };
                        let x = trim_chars(f[2].as_slice());
                        let y = trim_chars(f[3].as_slice());
                        let e = trim_chars(f[4].as_slice());
                        rd.header = Some((time, status, x, y, e));
                    }
                },
            }
            return;
        }
    }
    read_sample_line(rd, t.as_slice());
}

impl MseismFile {
    /// Reads a recording from its text. `file_stem` is the name of the file
    /// it came from without the extension (`None` when that name is not
    /// valid Unicode); the device identifier is what follows its last `-`.
    /// Lines are split at line feeds and trimmed; the first failure of a
    /// time stamp or of a sample ends the reading with its message; a text
    /// without a header line is refused.
    pub fn parse(content: &str, file_stem: Option<&str>) -> (r: Result<MseismFile, SegyError>)
        ensures
            mseism_outcome(
                content@,
                match file_stem {
                    Some(s) => Some(s@),
                    None => None,
                },
                r,
            ),
    {
        let cs = chars_of(content);
        let mut rd = Reader { header: None, samples: Vec::new(), error: None };
        let mut cur: Vec<char> = Vec::new();
        let mut i: usize = 0;
        let ghost sep = Sep::Char('\n');
        proof {
            assert(cs@.take(0) =~= Seq::<char>::empty());
            assert(split(cs@.take(0), sep).drop_last() =~= Seq::<Seq<char>>::empty());
            assert(rd.state().samples =~= Seq::<Seq<char>>::empty());
        }
        while i < cs.len()
            invariant
                i <= cs@.len(),
                sep == Sep::Char('\n'),
                split(cs@.take(i as int), sep).len() >= 1,
                rd.state() == read_lines(split(cs@.take(i as int), sep).drop_last()),
                cur@ == split(cs@.take(i as int), sep).last(),
            decreases cs.len() - i,
        {
            let c = cs[i];
            let ghost sp = split(cs@.take(i as int), sep);
            proof {
                crate::text::lemma_split_push(cs@.take(i as int), sep, c);
                assert(cs@.take(i as int).push(c) =~= cs@.take(i + 1));
                crate::text::lemma_split_nonempty(cs@.take(i + 1), sep);
            }
            if c == '\n' {
                read_one_line(&mut rd, cur.as_slice());
                proof {
                    assert(sp.drop_last().push(cur@) =~= sp);
                    assert(split(cs@.take(i + 1), sep).drop_last() =~= sp);
                    assert(sp.drop_last() =~= sp.drop_last());
                }
                cur = Vec::new();
            } else {
                cur.push(c);
                proof {
                    assert(split(cs@.take(i + 1), sep).drop_last() =~= sp.drop_last());
                }
            }
            i = i + 1;
        }
        proof {
            assert(cs@.take(cs@.len() as int) =~= cs@);
            let sp = split(cs@, sep);
            assert(sp.drop_last().push(cur@) =~= sp);
        }
        read_one_line(&mut rd, cur.as_slice());
        let device_id = match file_stem {
            Some(s) => {
                let sc = chars_of(s);
                let d = last_piece_chars(sc.as_slice(), '-');
                string_of(d.as_slice())
            },
            None => String::new(),
        };
        match rd.error {
            Some(e) => Err(SegyError::Parse(string_of(e.as_slice()))),
            None => match rd.header {
                None => Err(SegyError::Parse("No valid header line found in file".to_owned())),
                Some((time, status, x, y, e)) => {
                    let n = rd.samples.len();
                    Ok(
                        MseismFile {
                            device_id,
                            start_time: time,
                            status_code: status,
                            x: string_of(x.as_slice()),
                            y: string_of(y.as_slice()),
                            elevation: string_of(e.as_slice()),
                            samples: rd.samples,
                            sample_count: n,
                        },
                    )
                },
            },
        }
    }
}


/// How many tokens at the start of `toks` are floating-point literals.
pub open spec fn leading_valid(toks: Seq<Seq<char>>) -> nat
    decreases toks.len(),
{
    if toks.len() == 0 || !is_float_literal(toks[0]) {
        0
    } else {
        1 + leading_valid(toks.drop_first())
    }
}

proof fn lemma_leading_valid(toks: Seq<Seq<char>>, k: int)
    requires
        0 <= k <= toks.len(),
        forall|i: int| 0 <= i < k ==> is_float_literal(#[trigger] toks[i]),
        k == toks.len() || !is_float_literal(toks[k]),
    ensures
        leading_valid(toks) == k,
        k < toks.len() ==> first_invalid(toks) == Some(toks[k]),
        k == toks.len() ==> first_invalid(toks) is None,
    decreases k,
{
    if k > 0 {
        let r = toks.drop_first();
        assert forall|i: int| 0 <= i < k - 1 implies is_float_literal(#[trigger] r[i]) by {
            assert(r[i] == toks[i + 1]);
        }
        if k < toks.len() {
            assert(r[k - 1] == toks[k]);
        }
        lemma_leading_valid(r, k - 1);
    }
}

/// Reads the samples of one line: the tokens between spaces and tabs, each
/// of which must be a floating-point literal, are appended to `out` in
/// order. At the first token that is not, the reading stops with a `Parse`
/// error naming it; the tokens before it stay appended.
pub fn parse_samples_line(line: &str, out: &mut Vec<String>) -> (r: Result<(), SegyError>)
    ensures
        ({
            let toks = words(line@, Sep::Blank);
            &&& strings_view(final(out)@) == strings_view(old(out)@) + toks.take(leading_valid(toks) as int)
            &&& match first_invalid(toks) {
                None => r is Ok,
                Some(bad) => r matches Err(e) && e matches SegyError::Parse(m) && m@ == float_error_message(bad),
            }
        }),
{
    let cs = chars_of(line);
    let toks = words_of(cs.as_slice(), Sep::Blank);
    let ghost tv = pieces_view(toks@);
    let ghost start = strings_view(out@);
    let mut k: usize = 0;
    assert(start + tv.take(0) =~= start);
    while k < toks.len()
        invariant
            tv == pieces_view(toks@),
            tv == words(line@, Sep::Blank),
            start == strings_view(old(out)@),
            k <= toks@.len(),
            forall|i: int| 0 <= i < k ==> is_float_literal(#[trigger] tv[i]),
            strings_view(out@) == start + tv.take(k as int),
        decreases toks.len() - k,
    {
        let tok = &toks[k];
        assert(tok@ == tv[k as int]);
        if !float_literal(tok.as_slice()) {
            let mut m: Vec<char> = chars_of("Failed to parse float '");
            append_chars(&mut m, tok.as_slice());
            append_chars(&mut m, chars_of("': invalid float literal").as_slice());
            proof {
                lemma_leading_valid(tv, k as int);
                assert(m@ =~= float_error_message(tv[k as int]));
            }
            return Err(SegyError::Parse(string_of(m.as_slice())));
        }
        let s = string_of(tok.as_slice());
        let ghost before = out@;
        out.push(s);
        assert(strings_view(out@) =~= strings_view(before).push(tv[k as int]));
        assert(start + tv.take(k + 1) =~= (start + tv.take(k as int)).push(tv[k as int]));
        k = k + 1;
    }
    proof {
        lemma_leading_valid(tv, tv.len() as int);
        assert(tv.take(tv.len() as int) =~= tv);
    }
    Ok(())
}

} // verus!
