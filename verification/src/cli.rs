use crate::header::SegyRevision;
use crate::text::{append_chars, ascii_lower, chars_eq, chars_of, eq_ignore_case, matches_ignore_case, string_of};
use crate::time::digit;
use vstd::prelude::*;

verus! {

/// The revision a command-line word names: `rev0`, `rev1` or `rev2` in any
/// case, or the bare digit.
pub open spec fn named_revision(s: Seq<char>) -> Option<SegyRevision> {
    if eq_ignore_case(s, "rev0"@) || s == "0"@ {
        Some(SegyRevision::Rev0)
    } else if eq_ignore_case(s, "rev1"@) || s == "1"@ {
        Some(SegyRevision::Rev1)
    } else if eq_ignore_case(s, "rev2"@) || s == "2"@ {
        Some(SegyRevision::Rev2)
    } else {
        None
    }
}

/// The major number of a revision: 0, 1 or 2.
pub open spec fn revision_number(r: SegyRevision) -> int {
    match r {
        SegyRevision::Rev0 => 0,
        SegyRevision::Rev1 => 1,
        SegyRevision::Rev2 => 2,
    }
}

/// The words that name a revision: a word names revision `r` exactly when
/// it is `r`'s number as a bare digit, or `rev` followed by that digit in
/// any case of the letters.
pub proof fn lemma_revision_words(s: Seq<char>, r: SegyRevision)
    ensures
        (named_revision(s) == Some(r)) <==> (s =~= seq![digit(revision_number(r))] || eq_ignore_case(
            s,
            seq!['r', 'e', 'v', digit(revision_number(r))],
        )),
{
    assert(digit(0) == '0' && digit(1) == '1' && digit(2) == '2');
    reveal_strlit("rev0");
    reveal_strlit("rev1");
    reveal_strlit("rev2");
    reveal_strlit("0");
    reveal_strlit("1");
    reveal_strlit("2");
    let w = seq!['r', 'e', 'v', digit(revision_number(r))];
    let d = seq![digit(revision_number(r))];
    assert(eq_ignore_case(s, "rev0"@) ==> ascii_lower(s[3]) == '0');
    assert(eq_ignore_case(s, "rev1"@) ==> ascii_lower(s[3]) == '1');
    assert(eq_ignore_case(s, "rev2"@) ==> ascii_lower(s[3]) == '2');
    assert(eq_ignore_case(s, w) ==> ascii_lower(s[3]) == w[3]);
    match r {
        SegyRevision::Rev0 => {
            assert(w =~= "rev0"@);
            assert(d =~= "0"@);
            assert((s =~= d || eq_ignore_case(s, w)) ==> named_revision(s) == Some(r));
            assert(named_revision(s) == Some(r) ==> (s =~= d || eq_ignore_case(s, w)));
        },
        SegyRevision::Rev1 => {
            assert(w =~= "rev1"@);
            assert(d =~= "1"@);
            assert(eq_ignore_case(s, w) ==> !eq_ignore_case(s, "rev0"@) && s.len() == 4);
            assert(s =~= d ==> s.len() == 1 && s[0] == '1');
            assert((s =~= d || eq_ignore_case(s, w)) ==> named_revision(s) == Some(r));
        },
        SegyRevision::Rev2 => {
            assert(w =~= "rev2"@);
            assert(d =~= "2"@);
            assert(eq_ignore_case(s, w) ==> !eq_ignore_case(s, "rev0"@) && s.len() == 4);
            assert(s =~= d ==> s.len() == 1 && s[0] == '2');
            assert((s =~= d || eq_ignore_case(s, w)) ==> named_revision(s) == Some(r));
        },
    }
}

/// A word names no revision exactly when it is none of the bare digits 0,
/// 1 and 2, nor `rev` followed by one of them in any case of the letters.
pub proof fn lemma_revision_unknown(s: Seq<char>)
    ensures
        named_revision(s) is None <==> forall|k: int|
            0 <= k <= 2 ==> s != seq![digit(k)] && !eq_ignore_case(s, seq!['r', 'e', 'v', #[trigger] digit(k)]),
{
    assert(digit(0) == '0' && digit(1) == '1' && digit(2) == '2');
    reveal_strlit("rev0");
    reveal_strlit("rev1");
    reveal_strlit("rev2");
    reveal_strlit("0");
    reveal_strlit("1");
    reveal_strlit("2");
    assert("rev0"@ =~= seq!['r', 'e', 'v', digit(0)]);
    assert("rev1"@ =~= seq!['r', 'e', 'v', digit(1)]);
    assert("rev2"@ =~= seq!['r', 'e', 'v', digit(2)]);
    assert("0"@ =~= seq![digit(0)]);
    assert("1"@ =~= seq![digit(1)]);
    assert("2"@ =~= seq![digit(2)]);
}

/// The message for a word that names no revision.
pub open spec fn unknown_revision_message(s: Seq<char>) -> Seq<char> {
    "Unknown revision: "@ + s + ". Use rev0, rev1, or rev2"@
}

fn names(s: &[char], word: &str, digit: &str) -> (b: bool)
    ensures
        b == (eq_ignore_case(s@, word@) || s@ == digit@),
{
    let w = chars_of(word);
    let d = chars_of(digit);
    proof {
        assert(s@.skip(0) =~= s@);
    }
    matches_ignore_case(s, 0, w.as_slice()) || chars_eq(s, d.as_slice())
}

/// Reads the revision given on the command line.
pub fn parse_revision(s: &str) -> (r: Result<SegyRevision, String>)
    ensures
        match named_revision(s@) {
            Some(rev) => r == Ok::<SegyRevision, String>(rev),
            None => r matches Err(m) && m@ == unknown_revision_message(s@),
        },
{
    proof {
        reveal_strlit("rev0");
        reveal_strlit("rev1");
        reveal_strlit("rev2");
        reveal_strlit("0");
        reveal_strlit("1");
        reveal_strlit("2");
    }
    let cs = chars_of(s);
    if names(cs.as_slice(), "rev0", "0") {
        Ok(SegyRevision::Rev0)
    } else if names(cs.as_slice(), "rev1", "1") {
        Ok(SegyRevision::Rev1)
    } else if names(cs.as_slice(), "rev2", "2") {
        Ok(SegyRevision::Rev2)
    } else {
        let mut m = chars_of("Unknown revision: ");
        append_chars(&mut m, cs.as_slice());
        append_chars(&mut m, chars_of(". Use rev0, rev1, or rev2").as_slice());
        Err(string_of(m.as_slice()))
    }
}

/// When a progress display redraws: after every tenth of the steps, and at
/// the last step.
pub struct SimpleProgress {
    pub total: u64,
    pub last_print: u64,
}

impl SimpleProgress {
    /// A display of `total` steps, none drawn yet.
    pub fn new(total: u64) -> (p: SimpleProgress)
        ensures
            p.total == total,
            p.last_print == 0,
    {
        SimpleProgress { total, last_print: 0 }
    }

    /// Whether step `current` is drawn: a tenth of the steps or more after
    /// the last step drawn, or the last step; a step drawn becomes the last
    /// drawn.
    pub fn update(&mut self, current: u64) -> (draw: bool)
        requires
            old(self).last_print <= current,
        ensures
            draw == (10 * (current - old(self).last_print) >= old(self).total || current == old(self).total),
            final(self).total == old(self).total,
            final(self).last_print == if draw { current } else { old(self).last_print },
    {
        if 10 * ((current - self.last_print) as u128) >= self.total as u128 || current == self.total {
            self.last_print = current;
            true
        } else {
            false
        }
    }
}

} // verus!
