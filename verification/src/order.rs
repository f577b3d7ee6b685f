use crate::text::chars_of;
use vstd::prelude::*;

verus! {

/// Lexicographic order on character sequences, by code point. It is the
/// order of `String`'s `Ord`, since UTF-8 preserves code point order.
pub open spec fn chars_lt(a: Seq<char>, b: Seq<char>) -> bool
    decreases a.len(),
{
    if a.len() == 0 {
        b.len() > 0
    } else if b.len() == 0 {
        false
    } else if a[0] != b[0] {
        a[0] < b[0]
    } else {
        chars_lt(a.drop_first(), b.drop_first())
    }
}

/// No sequence is below itself.
pub proof fn lemma_lt_irreflexive(a: Seq<char>)
    ensures
        !chars_lt(a, a),
    decreases a.len(),
{
    if a.len() > 0 {
        lemma_lt_irreflexive(a.drop_first());
    }
}

/// The order is transitive.
pub proof fn lemma_lt_transitive(a: Seq<char>, b: Seq<char>, c: Seq<char>)
    requires
        chars_lt(a, b),
        chars_lt(b, c),
    ensures
        chars_lt(a, c),
    decreases a.len(),
{
    if a.len() > 0 && b.len() > 0 && c.len() > 0 && a[0] == b[0] && b[0] == c[0] {
        lemma_lt_transitive(a.drop_first(), b.drop_first(), c.drop_first());
    }
}

/// Two different sequences are ordered one way or the other.
pub proof fn lemma_lt_total(a: Seq<char>, b: Seq<char>)
    ensures
        a == b || chars_lt(a, b) || chars_lt(b, a),
    decreases a.len(),
{
    if a.len() > 0 && b.len() > 0 && a[0] != b[0] {
    } else if a.len() > 0 && b.len() > 0 && a[0] == b[0] {
        lemma_lt_total(a.drop_first(), b.drop_first());
        if a.drop_first() == b.drop_first() {
            assert(a =~= seq![a[0]] + a.drop_first());
            assert(b =~= seq![b[0]] + b.drop_first());
        }
    } else if a.len() == 0 && b.len() == 0 {
        assert(a =~= b);
    }
}

/// The order is asymmetric.
pub proof fn lemma_lt_asymmetric(a: Seq<char>, b: Seq<char>)
    requires
        chars_lt(a, b),
    ensures
        !chars_lt(b, a),
{
    if chars_lt(b, a) {
        lemma_lt_transitive(a, b, a);
        lemma_lt_irreflexive(a);
    }
}

/// Whether `a` comes before `b`.
pub fn chars_less(a: &[char], b: &[char]) -> (r: bool)
    ensures
        r == chars_lt(a@, b@),
{
    let mut i: usize = 0;
    assert(a@.skip(0) =~= a@);
    assert(b@.skip(0) =~= b@);
    while i < a.len() && i < b.len() && a[i] == b[i]
        invariant
            i <= a@.len(),
            i <= b@.len(),
            chars_lt(a@, b@) == chars_lt(a@.skip(i as int), b@.skip(i as int)),
        decreases a.len() - i,
    {
        assert(a@.skip(i as int).drop_first() =~= a@.skip(i + 1));
        assert(b@.skip(i as int).drop_first() =~= b@.skip(i + 1));
        i = i + 1;
    }
    if i == a.len() {
        i < b.len()
    } else if i == b.len() {
        false
    } else {
        a[i] < b[i]
    }
}

/// The views of a sequence of strings.
pub open spec fn strings_view(v: Seq<String>) -> Seq<Seq<char>> {
    v.map_values(|s: String| s@)
}

/// Strictly increasing, hence free of repetitions.
pub open spec fn strictly_sorted(s: Seq<Seq<char>>) -> bool {
    forall|i: int, j: int| 0 <= i < j < s.len() ==> chars_lt(#[trigger] s[i], #[trigger] s[j])
}

/// Inserts `s` into the strictly sorted `v` unless it is already there;
/// returns whether it was inserted.
pub fn insert_sorted(v: &mut Vec<String>, s: String) -> (inserted: bool)
    requires
        strictly_sorted(strings_view(old(v)@)),
    ensures
        strictly_sorted(strings_view(final(v)@)),
        strings_view(final(v)@).to_set() == strings_view(old(v)@).to_set().insert(s@),
        inserted == !strings_view(old(v)@).contains(s@),
        !inserted ==> final(v)@ == old(v)@,
        inserted ==> final(v)@.len() == old(v)@.len() + 1,
{
    let sc = chars_of(s.as_str());
    let mut i: usize = 0;
    let ghost w = strings_view(v@);
    while i < v.len()
        invariant
            i <= v@.len(),
            w == strings_view(v@),
            v@ == old(v)@,
            sc@ == s@,
            strictly_sorted(w),
            forall|k: int| 0 <= k < i ==> chars_lt(#[trigger] w[k], s@),
        decreases v.len() - i,
    {
        let vc = chars_of(v[i].as_str());
        assert(vc@ == w[i as int]);
        if chars_less(vc.as_slice(), sc.as_slice()) {
            i = i + 1;
        } else {
            proof {
                lemma_lt_total(w[i as int], s@);
            }
            if chars_less(sc.as_slice(), vc.as_slice()) {
                // s goes before v[i]
                let ghost old_w = w;
                v.insert(i, s);
                proof {
                    let nw = strings_view(v@);
                    assert(nw =~= old_w.insert(i as int, sc@));
                    assert forall|a: int, b: int| 0 <= a < b < nw.len() implies chars_lt(
                        #[trigger] nw[a],
                        #[trigger] nw[b],
                    ) by {
                        if a < i && b < i {
                            assert(nw[a] == old_w[a]);
                            assert(nw[b] == old_w[b]);
                        } else if a < i && b == i {
                        } else if a < i && b > i {
                            assert(nw[b] == old_w[b - 1]);
                        } else if a == i {
                            assert(nw[b] == old_w[b - 1]);
                            if b - 1 > i {
                                assert(chars_lt(old_w[i as int], old_w[b - 1]));
                                lemma_lt_transitive(s@, old_w[i as int], old_w[b - 1]);
                            }
                        } else {
                            assert(nw[a] == old_w[a - 1]);
                            assert(nw[b] == old_w[b - 1]);
                        }
                    }
                    assert forall|k: int| 0 <= k < old_w.len() implies old_w[k] != s@ by {
                        if k < i {
                            lemma_lt_irreflexive(s@);
                        } else if k == i {
                            lemma_lt_irreflexive(s@);
                        } else {
                            assert(chars_lt(old_w[i as int], old_w[k]));
                            lemma_lt_transitive(s@, old_w[i as int], old_w[k]);
                            lemma_lt_irreflexive(s@);
                        }
                    }
                    assert(nw.to_set() =~= old_w.to_set().insert(s@)) by {
                        assert forall|x: Seq<char>| nw.to_set().contains(x) <==> old_w.to_set().insert(s@).contains(x) by {
                            if nw.contains(x) {
                                let k = choose|k: int| 0 <= k < nw.len() && nw[k] == x;
                                if k < i {
                                    assert(old_w[k] == x);
                                } else if k > i {
                                    assert(old_w[k - 1] == x);
                                }
                            }
                            if old_w.contains(x) {
                                let k = choose|k: int| 0 <= k < old_w.len() && old_w[k] == x;
                                if k < i {
                                    assert(nw[k] == x);
                                } else {
                                    assert(nw[k + 1] == x);
                                }
                            }
                            if x == s@ {
                                assert(nw[i as int] == x);
                            }
                        }
                    }
                }
                return true;
            } else {
                proof {
                    assert(w[i as int] == s@);
                    assert(w.contains(s@));
                    assert(w.to_set().insert(s@) =~= w.to_set());
                }
                return false;
            }
        }
    }
    let ghost old_w = w;
    v.push(s);
    proof {
        let nw = strings_view(v@);
        assert(nw =~= old_w.push(sc@));
        assert forall|a: int, b: int| 0 <= a < b < nw.len() implies chars_lt(
            #[trigger] nw[a],
            #[trigger] nw[b],
        ) by {}
        assert forall|k: int| 0 <= k < old_w.len() implies old_w[k] != s@ by {
            lemma_lt_irreflexive(s@);
        }
        assert(nw.to_set() =~= old_w.to_set().insert(s@)) by {
            assert forall|x: Seq<char>| nw.to_set().contains(x) <==> old_w.to_set().insert(s@).contains(x) by {
                if nw.contains(x) {
                    let k = choose|k: int| 0 <= k < nw.len() && nw[k] == x;
                    if k < old_w.len() {
                        assert(old_w[k] == x);
                    }
                }
                if old_w.contains(x) {
                    let k = choose|k: int| 0 <= k < old_w.len() && old_w[k] == x;
                    assert(nw[k] == x);
                }
                if x == s@ {
                    assert(nw[old_w.len() as int] == x);
                }
            }
        }
    }
    true
}

} // verus!
