use vstd::prelude::*;

verus! {

broadcast use vstd::string::group_string_axioms;

// ---------------------------------------------------------------------------
// Characters
// ---------------------------------------------------------------------------

/// Unicode `White_Space`, the set `char::is_whitespace` tests for.
pub open spec fn is_ws(c: char) -> bool {
    let u = c as u32;
    ||| 0x9 <= u <= 0xd
    ||| u == 0x20
    ||| u == 0x85
    ||| u == 0xa0
    ||| u == 0x1680
    ||| 0x2000 <= u <= 0x200a
    ||| u == 0x2028
    ||| u == 0x2029
    ||| u == 0x202f
    ||| u == 0x205f
    ||| u == 0x3000
}

/// Whether `c` is Unicode white space.
pub fn is_whitespace(c: char) -> (b: bool)
    ensures
        b == is_ws(c),
{
    let u = c as u32;
    (0x9 <= u && u <= 0xd) || u == 0x20 || u == 0x85 || u == 0xa0 || u == 0x1680 || (0x2000
        <= u && u <= 0x200a) || u == 0x2028 || u == 0x2029 || u == 0x202f || u == 0x205f || u
        == 0x3000
}

/// An ASCII decimal digit.
pub open spec fn is_digit(c: char) -> bool {
    '0' <= c <= '9'
}

/// Every character of `s` is an ASCII decimal digit.
pub open spec fn all_digits(s: Seq<char>) -> bool {
    forall|i: int| 0 <= i < s.len() ==> is_digit(#[trigger] s[i])
}

/// The character of the decimal digit `d` (0 <= d < 10).
pub open spec fn digit_char(d: nat) -> char {
    (d + 48) as char
}

/// The value of the decimal digit character `c`.
pub open spec fn digit_value(c: char) -> nat {
    (c as u32 - 48) as nat
}

// ---------------------------------------------------------------------------
// Conversions between strings and character vectors
// ---------------------------------------------------------------------------

/// The characters of `s`, in order.
pub fn chars_of(s: &str) -> (v: Vec<char>)
    ensures
        v@ == s@,
{
    let mut v: Vec<char> = Vec::new();
    for c in it: s.chars()
        invariant
            v@ == it.seq().take(it.index()),
            it.seq() == s@,
    {
        v.push(c);
        assert(v@ =~= it.seq().take(it.index() + 1));
    }
    v
}

/// `String::from_iter` over characters: the string made of `v`, in order.
#[verifier::external_body]
pub(crate) fn string_of(v: &[char]) -> (s: String)
    ensures
        s@ == v@,
{
    v.iter().collect()
}

/// A copy of `s[from..to]`.
pub fn copy_range(s: &[char], from: usize, to: usize) -> (v: Vec<char>)
    requires
        from <= to <= s@.len(),
    ensures
        v@ == s@.subrange(from as int, to as int),
{
    let mut v: Vec<char> = Vec::new();
    let mut i = from;
    while i < to
        invariant
            from <= i <= to <= s@.len(),
            v@ == s@.subrange(from as int, i as int),
        decreases to - i,
    {
        v.push(s[i]);
        i = i + 1;
        assert(v@ =~= s@.subrange(from as int, i as int));
    }
    v
}

/// Appends all of `src` to `dst`.
pub fn append_chars(dst: &mut Vec<char>, src: &[char])
    ensures
        final(dst)@ == old(dst)@ + src@,
{
    let mut i: usize = 0;
    while i < src.len()
        invariant
            i <= src@.len(),
            dst@ == old(dst)@ + src@.take(i as int),
        decreases src.len() - i,
    {
        dst.push(src[i]);
        i = i + 1;
        assert(dst@ =~= old(dst)@ + src@.take(i as int));
    }
    assert(src@.take(src@.len() as int) =~= src@);
}

/// Whether `s` holds `c`.
pub fn contains_char(s: &[char], c: char) -> (b: bool)
    ensures
        b == s@.contains(c),
{
    let mut i: usize = 0;
    while i < s.len()
        invariant
            i <= s@.len(),
            forall|k: int| 0 <= k < i ==> s@[k] != c,
        decreases s.len() - i,
    {
        if s[i] == c {
            return true;
        }
        i = i + 1;
    }
    false
}

/// Whether `a` and `b` hold the same characters.
pub fn chars_eq(a: &[char], b: &[char]) -> (r: bool)
    ensures
        r == (a@ == b@),
{
    if a.len() != b.len() {
        return false;
    }
    let mut i: usize = 0;
    while i < a.len()
        invariant
            a@.len() == b@.len(),
            i <= a@.len(),
            forall|k: int| 0 <= k < i ==> a@[k] == b@[k],
        decreases a.len() - i,
    {
        if a[i] != b[i] {
            return false;
        }
        i = i + 1;
    }
    assert(a@ =~= b@);
    true
}

// ---------------------------------------------------------------------------
// Trimming
// ---------------------------------------------------------------------------

/// `s` without its leading white space.
pub open spec fn trim_start(s: Seq<char>) -> Seq<char>
    decreases s.len(),
{
    if s.len() > 0 && is_ws(s[0]) {
        trim_start(s.drop_first())
    } else {
        s
    }
}

/// `s` without its trailing white space.
pub open spec fn trim_end(s: Seq<char>) -> Seq<char>
    decreases s.len(),
{
    if s.len() > 0 && is_ws(s.last()) {
        trim_end(s.drop_last())
    } else {
        s
    }
}

/// `s` without leading and trailing white space (`str::trim`).
pub open spec fn trim(s: Seq<char>) -> Seq<char> {
    trim_end(trim_start(s))
}

/// `str::trim` on characters.
pub fn trim_chars(s: &[char]) -> (t: Vec<char>)
    ensures
        t@ == trim(s@),
{
    let n = s.len();
    let mut i: usize = 0;
    assert(s@.skip(0) =~= s@);
    while i < n && is_whitespace(s[i])
        invariant
            i <= n == s@.len(),
            trim_start(s@) == trim_start(s@.skip(i as int)),
        decreases n - i,
    {
        assert(s@.skip(i as int).drop_first() =~= s@.skip(i + 1));
        i = i + 1;
    }
    assert(trim_start(s@) == s@.subrange(i as int, n as int)) by {
        assert(s@.skip(i as int) =~= s@.subrange(i as int, n as int));
    }
    let mut j: usize = n;
    while j > i && is_whitespace(s[j - 1])
        invariant
            i <= j <= n == s@.len(),
            trim(s@) == trim_end(s@.subrange(i as int, j as int)),
        decreases j,
    {
        assert(s@.subrange(i as int, j as int).drop_last() =~= s@.subrange(i as int, j - 1));
        j = j - 1;
    }
    copy_range(s, i, j)
}

// ---------------------------------------------------------------------------
// Splitting
// ---------------------------------------------------------------------------

/// What separates the pieces of a split.
#[derive(Clone, Copy, Debug)]
pub enum Sep {
    /// One given character.
    Char(char),
    /// A space or a horizontal tab.
    Blank,
    /// Any Unicode white space.
    Space,
}

/// Whether `c` is a separator of kind `sep`.
pub open spec fn is_sep(sep: Sep, c: char) -> bool {
    match sep {
        Sep::Char(x) => c == x,
        Sep::Blank => c == ' ' || c == '\t',
        Sep::Space => is_ws(c),
    }
}

/// Whether `c` is a separator of kind `sep`.
pub fn sep_matches(sep: Sep, c: char) -> (b: bool)
    ensures
        b == is_sep(sep, c),
{
    match sep {
        Sep::Char(x) => c == x,
        Sep::Blank => c == ' ' || c == '\t',
        Sep::Space => is_whitespace(c),
    }
}

/// The pieces of `s` between separators, empty pieces included: `k`
/// separators give `k + 1` pieces (`str::split`).
pub open spec fn split(s: Seq<char>, sep: Sep) -> Seq<Seq<char>>
    decreases s.len(),
{
    if s.len() == 0 {
        seq![Seq::<char>::empty()]
    } else {
        let p = split(s.drop_last(), sep);
        if is_sep(sep, s.last()) {
            p.push(Seq::<char>::empty())
        } else {
            p.update(p.len() - 1, p.last().push(s.last()))
        }
    }
}

/// The non-empty pieces of `s` between separators (`split_whitespace`).
pub open spec fn words(s: Seq<char>, sep: Sep) -> Seq<Seq<char>> {
    split(s, sep).filter(|p: Seq<char>| p.len() > 0)
}

/// A split always has at least one piece.
pub proof fn lemma_split_nonempty(s: Seq<char>, sep: Sep)
    ensures
        split(s, sep).len() >= 1,
    decreases s.len(),
{
    if s.len() > 0 {
        lemma_split_nonempty(s.drop_last(), sep);
    }
}

/// Splitting a one-character extension of `s`.
pub proof fn lemma_split_push(s: Seq<char>, sep: Sep, c: char)
    ensures
        split(s, sep).len() >= 1,
        split(s.push(c), sep) == if is_sep(sep, c) {
            split(s, sep).push(Seq::<char>::empty())
        } else {
            split(s, sep).update(split(s, sep).len() - 1, split(s, sep).last().push(c))
        },
{
    lemma_split_nonempty(s, sep);
    assert(s.push(c).drop_last() =~= s);
}

/// The view of a vector of character vectors.
pub open spec fn pieces_view(v: Seq<Vec<char>>) -> Seq<Seq<char>> {
    v.map_values(|p: Vec<char>| p@)
}

/// `str::split`: the pieces of `s` between separators.
pub fn split_chars(s: &[char], sep: Sep) -> (pieces: Vec<Vec<char>>)
    ensures
        pieces_view(pieces@) == split(s@, sep),
{
    let mut done: Vec<Vec<char>> = Vec::new();
    let mut cur: Vec<char> = Vec::new();
    let mut i: usize = 0;
    assert(s@.take(0) =~= Seq::<char>::empty());
    assert(pieces_view(done@).push(cur@) =~= split(s@.take(0), sep));
    while i < s.len()
        invariant
            i <= s@.len(),
            pieces_view(done@).push(cur@) == split(s@.take(i as int), sep),
        decreases s.len() - i,
    {
        let c = s[i];
        proof {
            lemma_split_push(s@.take(i as int), sep, c);
            assert(s@.take(i as int).push(c) =~= s@.take(i + 1));
        }
        if sep_matches(sep, c) {
            let ghost old_done = pieces_view(done@);
            let ghost old_cur = cur@;
            done.push(cur);
            cur = Vec::new();
            assert(pieces_view(done@) =~= old_done.push(old_cur));
            assert(pieces_view(done@).push(cur@) =~= split(s@.take(i + 1), sep));
        } else {
            let ghost old_cur = cur@;
            cur.push(c);
            assert(pieces_view(done@).push(cur@) =~= split(s@.take(i + 1), sep));
        }
        i = i + 1;
    }
    assert(s@.take(s@.len() as int) =~= s@);
    let ghost d = pieces_view(done@);
    let ghost cv = cur@;
    done.push(cur);
    assert(pieces_view(done@) =~= d.push(cv));
    done
}

/// The non-empty pieces of `s` between separators (`str::split_whitespace`
/// for `Sep::Space`; the tokens of a sample line for `Sep::Blank`).
pub fn words_of(s: &[char], sep: Sep) -> (ws: Vec<Vec<char>>)
    ensures
        pieces_view(ws@) == words(s@, sep),
{
    let mut done: Vec<Vec<char>> = Vec::new();
    let mut cur: Vec<char> = Vec::new();
    let mut i: usize = 0;
    let ghost nonempty = |p: Seq<char>| p.len() > 0;
    proof {
        assert(s@.take(0) =~= Seq::<char>::empty());
        assert(split(s@.take(0), sep).drop_last() =~= Seq::<Seq<char>>::empty());
        assert(Seq::<Seq<char>>::empty().filter(nonempty) =~= Seq::<Seq<char>>::empty());
        assert(pieces_view(done@) =~= Seq::<Seq<char>>::empty());
    }
    while i < s.len()
        invariant
            i <= s@.len(),
            nonempty == (|p: Seq<char>| p.len() > 0),
            split(s@.take(i as int), sep).len() >= 1,
            pieces_view(done@) == split(s@.take(i as int), sep).drop_last().filter(nonempty),
            cur@ == split(s@.take(i as int), sep).last(),
        decreases s.len() - i,
    {
        let c = s[i];
        let ghost sp = split(s@.take(i as int), sep);
        proof {
            lemma_split_push(s@.take(i as int), sep, c);
            assert(s@.take(i as int).push(c) =~= s@.take(i + 1));
            lemma_split_nonempty(s@.take(i + 1), sep);
        }
        if sep_matches(sep, c) {
            let ghost old_done = pieces_view(done@);
            if cur.len() > 0 {
                let ghost cv = cur@;
                done.push(cur);
                proof {
                    assert(pieces_view(done@) =~= old_done.push(cv));
                    assert(sp.drop_last().push(cv) =~= sp);
                    sp.drop_last().lemma_filter_push(cv, nonempty);
                    assert(split(s@.take(i + 1), sep).drop_last() =~= sp);
                }
            } else {
                proof {
                    assert(sp.drop_last().push(cur@) =~= sp);
                    sp.drop_last().lemma_filter_push(cur@, nonempty);
                    assert(split(s@.take(i + 1), sep).drop_last() =~= sp);
                }
            }
            cur = Vec::new();
        } else {
            cur.push(c);
            proof {
                assert(split(s@.take(i + 1), sep).drop_last() =~= sp.drop_last());
            }
        }
        i = i + 1;
    }
    proof {
        assert(s@.take(s@.len() as int) =~= s@);
        let sp = split(s@, sep);
        assert(sp.drop_last().push(cur@) =~= sp);
        sp.drop_last().lemma_filter_push(cur@, nonempty);
    }
    if cur.len() > 0 {
        let ghost d = pieces_view(done@);
        let ghost cv = cur@;
        done.push(cur);
        assert(pieces_view(done@) =~= d.push(cv));
    }
    done
}

/// The last piece of `s` after splitting at `c`: what follows the last
/// `c`, or all of `s` when it holds none (`str::split(c).last()`).
pub open spec fn last_piece(s: Seq<char>, c: char) -> Seq<char> {
    split(s, Sep::Char(c)).last()
}

/// What follows the last occurrence of `c` in `s`.
pub fn last_piece_chars(s: &[char], c: char) -> (t: Vec<char>)
    ensures
        t@ == last_piece(s@, c),
{
    let pieces = split_chars(s, Sep::Char(c));
    proof {
        lemma_split_nonempty(s@, Sep::Char(c));
    }
    let k = pieces.len() - 1;
    let mut t: Vec<char> = Vec::new();
    append_chars(&mut t, pieces[k].as_slice());
    t
}

// ---------------------------------------------------------------------------
// Numbers
// ---------------------------------------------------------------------------

/// The value of the decimal digit string `s`.
pub open spec fn digits_value(s: Seq<char>) -> nat
    decreases s.len(),
{
    if s.len() == 0 {
        0
    } else {
        digits_value(s.drop_last()) * 10 + digit_value(s.last())
    }
}

/// What `u32::from_str` reads from `s`: an optional `+` followed by at
/// least one ASCII digit, with a value that fits in 32 bits.
pub open spec fn parse_u32_spec(s: Seq<char>) -> Option<u32> {
    let d = if s.len() > 1 && s[0] == '+' { s.drop_first() } else { s };
    if d.len() > 0 && all_digits(d) && digits_value(d) <= u32::MAX {
        Some(digits_value(d) as u32)
    } else {
        None
    }
}

proof fn lemma_digits_value_grows(s: Seq<char>, i: int)
    requires
        0 <= i <= s.len(),
        all_digits(s),
    ensures
        digits_value(s.take(i)) <= digits_value(s),
    decreases s.len() - i,
{
    if i < s.len() {
        lemma_digits_value_grows(s, i + 1);
        assert(s.take(i + 1).drop_last() =~= s.take(i));
    } else {
        assert(s.take(i) =~= s);
    }
}

/// `u32::from_str`, on characters.
pub fn parse_u32(s: &[char]) -> (r: Option<u32>)
    ensures
        r == parse_u32_spec(s@),
{
    let start: usize = if s.len() > 1 && s[0] == '+' { 1 } else { 0 };
    let ghost d = if s@.len() > 1 && s@[0] == '+' { s@.drop_first() } else { s@ };
    assert(d =~= s@.skip(start as int));
    if start >= s.len() {
        return None;
    }
    let mut acc: u64 = 0;
    let mut i: usize = start;
    assert(d.take(0) =~= Seq::<char>::empty());
    while i < s.len()
        invariant
            start <= i <= s@.len(),
            start < s@.len(),
            d == s@.skip(start as int),
            d == (if s@.len() > 1 && s@[0] == '+' { s@.drop_first() } else { s@ }),
            all_digits(d.take(i - start)),
            acc == digits_value(d.take(i - start)),
            acc <= u32::MAX,
        decreases s.len() - i,
    {
        let c = s[i];
        if !('0' <= c && c <= '9') {
            assert(d[i - start] == c);
            assert(!is_digit(d[i - start]));
            assert(!all_digits(d));
            return None;
        }
        let v = (c as u32 - 48) as u64;
        proof {
            assert(d.take(i + 1 - start).drop_last() =~= d.take(i - start));
            assert(d.take(i + 1 - start).last() == c);
        }
        let next = acc * 10 + v;
        if next > 0xffff_ffff {
            proof {
                assert(digits_value(d.take(i + 1 - start)) == next);
                if all_digits(d) {
                    lemma_digits_value_grows(d, i + 1 - start);
                }
            }
            return None;
        }
        acc = next;
        i = i + 1;
    }
    assert(d.take(s@.len() - start) =~= d);
    Some(acc as u32)
}

/// The decimal digits of `n`, most significant first, without leading
/// zeros (`n.to_string()`).
pub open spec fn decimal(n: nat) -> Seq<char>
    decreases n,
{
    if n < 10 {
        seq![digit_char(n)]
    } else {
        decimal(n / 10).push(digit_char(n % 10))
    }
}

/// Appends the decimal digits of `n`.
pub fn push_decimal(out: &mut Vec<char>, n: u64)
    ensures
        final(out)@ == old(out)@ + decimal(n as nat),
    decreases n,
{
    if n >= 10 {
        push_decimal(out, n / 10);
    }
    let d = (n % 10) as u8;
    let c = (d + 48) as char;
    let ghost before = out@;
    out.push(c);
    proof {
        assert(c == digit_char((n % 10) as nat));
        if n >= 10 {
            assert(final(out)@ =~= old(out)@ + decimal(n as nat));
        } else {
            assert(final(out)@ =~= old(out)@ + decimal(n as nat));
        }
    }
}

/// The decimal text of `n`.
pub fn decimal_string(n: u64) -> (s: String)
    ensures
        s@ == decimal(n as nat),
{
    let mut v: Vec<char> = Vec::new();
    push_decimal(&mut v, n);
    assert(v@ =~= decimal(n as nat));
    string_of(v.as_slice())
}

// ---------------------------------------------------------------------------
// Replacing
// ---------------------------------------------------------------------------

/// `s` with every non-overlapping occurrence of `p`, found from the left,
/// replaced by `r` (`str::replace` for a non-empty `p`).
pub open spec fn replace_all(s: Seq<char>, p: Seq<char>, r: Seq<char>) -> Seq<char>
    decreases s.len(),
{
    if p.len() == 0 || s.len() < p.len() {
        s
    } else if s.take(p.len() as int) == p {
        r + replace_all(s.skip(p.len() as int), p, r)
    } else {
        seq![s[0]] + replace_all(s.drop_first(), p, r)
    }
}

/// Concatenation of sequences is associative.
pub proof fn lemma_concat_assoc<A>(a: Seq<A>, b: Seq<A>, c: Seq<A>)
    ensures
        (a + b) + c == a + (b + c),
{
    assert((a + b) + c =~= a + (b + c));
}

/// Whether `p` occurs in `s` at position `i`.
fn occurs_at(s: &[char], i: usize, p: &[char]) -> (b: bool)
    requires
        i + p@.len() <= s@.len(),
    ensures
        b == (s@.subrange(i as int, i + p@.len()) == p@),
{
    let n = s.len();
    let mut k: usize = 0;
    while k < p.len()
        invariant
            n == s@.len(),
            i + p@.len() <= s@.len(),
            k <= p@.len(),
            forall|j: int| 0 <= j < k ==> s@[i + j] == p@[j],
        decreases p.len() - k,
    {
        if s[i + k] != p[k] {
            assert(s@.subrange(i as int, i + p@.len())[k as int] != p@[k as int]);
            return false;
        }
        k = k + 1;
    }
    assert(s@.subrange(i as int, i + p@.len()) =~= p@);
    true
}

/// `str::replace(p, r)` on characters, for a non-empty `p`.
pub fn replace_chars(s: &[char], p: &[char], r: &[char]) -> (out: Vec<char>)
    requires
        p@.len() > 0,
    ensures
        out@ == replace_all(s@, p@, r@),
{
    let mut out: Vec<char> = Vec::new();
    let mut i: usize = 0;
    assert(s@.skip(0) =~= s@);
    while i < s.len()
        invariant
            p@.len() > 0,
            i <= s@.len(),
            out@ + replace_all(s@.skip(i as int), p@, r@) == replace_all(s@, p@, r@),
        decreases s.len() - i,
    {
        let ghost rest = s@.skip(i as int);
        if s.len() - i >= p.len() && occurs_at(s, i, p) {
            proof {
                assert(rest.take(p@.len() as int) =~= s@.subrange(i as int, i + p@.len()));
                assert(rest.skip(p@.len() as int) =~= s@.skip(i + p@.len()));
            }
            let ghost before = out@;
            append_chars(&mut out, r);
            proof {
                lemma_concat_assoc(before, r@, replace_all(s@.skip(i + p@.len()), p@, r@));
            }
            i = i + p.len();
        } else {
            proof {
                if rest.len() >= p@.len() {
                    assert(rest.take(p@.len() as int) =~= s@.subrange(i as int, i + p@.len()));
                }
                assert(rest.drop_first() =~= s@.skip(i + 1));
                assert(replace_all(rest, p@, r@) =~= seq![rest[0]] + replace_all(rest.drop_first(), p@, r@));
            }
            let ghost before = out@;
            out.push(s[i]);
            assert(out@ + replace_all(s@.skip(i + 1), p@, r@) =~= before + (seq![rest[0]] + replace_all(rest.drop_first(), p@, r@)));
            i = i + 1;
        }
    }
    assert(out@ =~= replace_all(s@, p@, r@));
    out
}

// ---------------------------------------------------------------------------
// Floating-point literals
// ---------------------------------------------------------------------------

/// `c` with ASCII upper-case letters mapped to lower case.
pub open spec fn ascii_lower(c: char) -> char {
    if 'A' <= c <= 'Z' {
        ((c as u32) + 32) as char
    } else {
        c
    }
}

/// `s` equals the lower-case ASCII word `w`, ignoring ASCII case.
pub open spec fn eq_ignore_case(s: Seq<char>, w: Seq<char>) -> bool {
    s.len() == w.len() && forall|i: int| 0 <= i < s.len() ==> ascii_lower(#[trigger] s[i]) == w[i]
}

/// A sign character.
pub open spec fn is_sign(c: char) -> bool {
    c == '+' || c == '-'
}

/// `s` without one leading sign character.
pub open spec fn without_sign(s: Seq<char>) -> Seq<char> {
    if s.len() > 0 && is_sign(s[0]) {
        s.drop_first()
    } else {
        s
    }
}

/// The position of the first character of `s` satisfying `stop`, or the
/// length of `s` when none does.
pub open spec fn first_stop(s: Seq<char>, dot: bool) -> nat
    decreases s.len(),
{
    if s.len() == 0 {
        0
    } else if (dot && s[0] == '.') || (!dot && (s[0] == 'e' || s[0] == 'E')) {
        0
    } else {
        1 + first_stop(s.drop_first(), dot)
    }
}

/// A mantissa: digits with at most one decimal point and at least one
/// digit.
pub open spec fn is_mantissa(m: Seq<char>) -> bool {
    let k = first_stop(m, true) as int;
    let whole = m.take(k);
    let frac = if k < m.len() { m.skip(k + 1) } else { Seq::<char>::empty() };
    all_digits(whole) && all_digits(frac) && whole.len() + frac.len() > 0
}

/// An exponent after `e`: an optional sign and at least one digit.
pub open spec fn is_exponent(x: Seq<char>) -> bool {
    let v = without_sign(x);
    v.len() > 0 && all_digits(v)
}

/// A decimal number: a mantissa, then optionally `e` or `E` and an exponent.
pub open spec fn is_number(t: Seq<char>) -> bool {
    let k = first_stop(t, false) as int;
    is_mantissa(t.take(k)) && (k == t.len() || is_exponent(t.skip(k + 1)))
}

/// The text `f32::from_str` accepts: an optional sign, then `inf`,
/// `infinity`, `nan` (in any ASCII case) or a decimal number.
pub open spec fn is_float_literal(s: Seq<char>) -> bool {
    let t = without_sign(s);
    ||| eq_ignore_case(t, seq!['i', 'n', 'f'])
    ||| eq_ignore_case(t, seq!['i', 'n', 'f', 'i', 'n', 'i', 't', 'y'])
    ||| eq_ignore_case(t, seq!['n', 'a', 'n'])
    ||| is_number(t)
}

fn lower_char(c: char) -> (d: char)
    ensures
        d == ascii_lower(c),
{
    if 'A' <= c && c <= 'Z' {
        ((c as u32 + 32) as u8) as char
    } else {
        c
    }
}

pub fn matches_ignore_case(s: &[char], from: usize, w: &[char]) -> (b: bool)
    requires
        from <= s@.len(),
    ensures
        b == eq_ignore_case(s@.skip(from as int), w@),
{
    if s.len() - from != w.len() {
        return false;
    }
    let n = s.len();
    let mut i: usize = 0;
    while i < w.len()
        invariant
            n == s@.len(),
            from <= s@.len(),
            s@.len() - from == w@.len(),
            i <= w@.len(),
            forall|k: int| 0 <= k < i ==> ascii_lower(#[trigger] s@.skip(from as int)[k]) == w@[k],
        decreases w.len() - i,
    {
        if lower_char(s[from + i]) != w[i] {
            assert(s@.skip(from as int)[i as int] == s@[from + i]);
            return false;
        }
        assert(s@.skip(from as int)[i as int] == s@[from + i]);
        i = i + 1;
    }
    true
}

/// The first position at or after `from` whose character stops a scan
/// (`.` when `dot`, else `e` or `E`), or `to`.
fn scan_to_stop(s: &[char], from: usize, to: usize, dot: bool) -> (k: usize)
    requires
        from <= to <= s@.len(),
    ensures
        from <= k <= to,
        k - from == first_stop(s@.subrange(from as int, to as int), dot),
{
    let mut k = from;
    assert(s@.subrange(from as int, to as int).skip(0) =~= s@.subrange(from as int, to as int));
    while k < to && !((dot && s[k] == '.') || (!dot && (s[k] == 'e' || s[k] == 'E')))
        invariant
            from <= k <= to <= s@.len(),
            first_stop(s@.subrange(from as int, to as int), dot) == (k - from) + first_stop(
                s@.subrange(k as int, to as int),
                dot,
            ),
        decreases to - k,
    {
        assert(s@.subrange(k as int, to as int).drop_first() =~= s@.subrange(k + 1, to as int));
        k = k + 1;
    }
    k
}

fn digits_between(s: &[char], from: usize, to: usize) -> (b: bool)
    requires
        from <= to <= s@.len(),
    ensures
        b == all_digits(s@.subrange(from as int, to as int)),
{
    let mut i = from;
    while i < to
        invariant
            from <= i <= to <= s@.len(),
            forall|k: int| from <= k < i ==> is_digit(s@[k]),
        decreases to - i,
    {
        if !('0' <= s[i] && s[i] <= '9') {
            assert(!is_digit(s@.subrange(from as int, to as int)[i - from]));
            return false;
        }
        i = i + 1;
    }
    assert forall|k: int| 0 <= k < to - from implies is_digit(
        #[trigger] s@.subrange(from as int, to as int)[k],
    ) by {
        assert(s@.subrange(from as int, to as int)[k] == s@[from + k]);
    }
    true
}

fn mantissa_between(s: &[char], from: usize, to: usize) -> (b: bool)
    requires
        from <= to <= s@.len(),
    ensures
        b == is_mantissa(s@.subrange(from as int, to as int)),
{
    let ghost m = s@.subrange(from as int, to as int);
    let d = scan_to_stop(s, from, to, true);
    assert(m.take(d - from) =~= s@.subrange(from as int, d as int));
    let whole = digits_between(s, from, d);
    if d < to {
        assert(m.skip(d - from + 1) =~= s@.subrange(d + 1, to as int));
        let frac = digits_between(s, d + 1, to);
        whole && frac && (d - from) + (to - (d + 1)) > 0
    } else {
        assert(Seq::<char>::empty() =~= s@.subrange(to as int, to as int));
        whole && d - from > 0
    }
}

/// Whether `f32::from_str` accepts `s`.
pub fn float_literal(s: &[char]) -> (b: bool)
    ensures
        b == is_float_literal(s@),
{
    let from: usize = if s.len() > 0 && (s[0] == '+' || s[0] == '-') { 1 } else { 0 };
    let ghost t = without_sign(s@);
    assert(t =~= s@.skip(from as int));
    let inf = ['i', 'n', 'f'];
    let infinity = ['i', 'n', 'f', 'i', 'n', 'i', 't', 'y'];
    let nan = ['n', 'a', 'n'];
    assert(inf@ =~= seq!['i', 'n', 'f']);
    assert(infinity@ =~= seq!['i', 'n', 'f', 'i', 'n', 'i', 't', 'y']);
    assert(nan@ =~= seq!['n', 'a', 'n']);
    if matches_ignore_case(s, from, inf.as_slice()) || matches_ignore_case(
        s,
        from,
        infinity.as_slice(),
    ) || matches_ignore_case(s, from, nan.as_slice()) {
        return true;
    }
    let n = s.len();
    assert(t =~= s@.subrange(from as int, n as int));
    let k = scan_to_stop(s, from, n, false);
    assert(t.take(k - from) =~= s@.subrange(from as int, k as int));
    let mant = mantissa_between(s, from, k);
    if !mant {
        return false;
    }
    if k == n {
        return true;
    }
    assert(t.skip(k - from + 1) =~= s@.subrange(k + 1, n as int));
    let e = k + 1;
    let e2: usize = if e < n && (s[e] == '+' || s[e] == '-') { e + 1 } else { e };
    assert(without_sign(s@.subrange(e as int, n as int)) =~= s@.subrange(e2 as int, n as int));
    e2 < n && digits_between(s, e2, n)
}

/// Whether `p` occurs somewhere in `s` (`str::contains` with a pattern).
pub open spec fn contains_seq(s: Seq<char>, p: Seq<char>) -> bool {
    exists|i: int| 0 <= i <= s.len() - p.len() && #[trigger] s.subrange(i, i + p.len()) == p
}

/// Whether `p` occurs in `s`.
pub fn contains_chars(s: &[char], p: &[char]) -> (b: bool)
    ensures
        b == contains_seq(s@, p@),
{
    if p.len() > s.len() {
        return false;
    }
    if p.len() == 0 {
        assert(s@.subrange(0int, 0int + p@.len()) =~= p@);
        return true;
    }
    let n = s.len();
    let mut i: usize = 0;
    while i <= s.len() - p.len()
        invariant
            n == s@.len(),
            0 < p@.len() <= s@.len(),
            i <= s@.len() - p@.len() + 1,
            forall|k: int| 0 <= k < i ==> #[trigger] s@.subrange(k, k + p@.len()) != p@,
        decreases s.len() - p.len() + 1 - i,
    {
        if occurs_at(s, i, p) {
            return true;
        }
        i = i + 1;
    }
    assert(!contains_seq(s@, p@)) by {
        if contains_seq(s@, p@) {
            let k = choose|k: int| 0 <= k <= s@.len() - p@.len() && #[trigger] s@.subrange(k, k + p@.len()) == p@;
            assert(s@.subrange(k, k + p@.len()) != p@);
        }
    }
    false
}

/// The position of the last `c` in `s` (`str::rfind`).
pub open spec fn rfind(s: Seq<char>, c: char) -> Option<int>
    decreases s.len(),
{
    if s.len() == 0 {
        None
    } else if s.last() == c {
        Some(s.len() - 1)
    } else {
        rfind(s.drop_last(), c)
    }
}

/// A position found by `rfind` holds `c`.
pub proof fn lemma_rfind_bound(s: Seq<char>, c: char)
    ensures
        rfind(s, c) matches Some(k) ==> 0 <= k < s.len() && s[k] == c,
    decreases s.len(),
{
    if s.len() > 0 && s.last() != c {
        lemma_rfind_bound(s.drop_last(), c);
    }
}

/// The position of the last `c` in `s`.
pub fn rfind_char(s: &[char], c: char) -> (r: Option<usize>)
    ensures
        match r {
            Some(k) => rfind(s@, c) == Some(k as int),
            None => rfind(s@, c) is None,
        },
{
    let mut j: usize = s.len();
    assert(s@.take(j as int) =~= s@);
    while j > 0
        invariant
            j <= s@.len(),
            rfind(s@, c) == rfind(s@.take(j as int), c),
        decreases j,
    {
        if s[j - 1] == c {
            return Some(j - 1);
        }
        assert(s@.take(j as int).drop_last() =~= s@.take(j - 1));
        j = j - 1;
    }
    None
}

} // verus!
