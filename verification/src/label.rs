use vstd::prelude::*;

verus! {

/// The Unicode White_Space characters: what label normalization trims and
/// collapses. This is the documented character set of `char::is_whitespace`.
pub open spec fn is_space(c: char) -> bool {
    ||| c == ' '
    ||| c == '\u{9}'
    ||| c == '\u{A}'
    ||| c == '\u{B}'
    ||| c == '\u{C}'
    ||| c == '\u{D}'
    ||| c == '\u{85}'
    ||| c == '\u{A0}'
    ||| c == '\u{1680}'
    ||| c == '\u{2000}'
    ||| c == '\u{2001}'
    ||| c == '\u{2002}'
    ||| c == '\u{2003}'
    ||| c == '\u{2004}'
    ||| c == '\u{2005}'
    ||| c == '\u{2006}'
    ||| c == '\u{2007}'
    ||| c == '\u{2008}'
    ||| c == '\u{2009}'
    ||| c == '\u{200A}'
    ||| c == '\u{2028}'
    ||| c == '\u{2029}'
    ||| c == '\u{202F}'
    ||| c == '\u{205F}'
    ||| c == '\u{3000}'
}

/// Whether `c` is a whitespace character in the sense of label normalization.
pub fn is_space_char(c: char) -> (r: bool)
    ensures
        r == is_space(c),
{
    c == ' ' || c == '\u{9}' || c == '\u{A}' || c == '\u{B}' || c == '\u{C}' || c == '\u{D}'
        || c == '\u{85}' || c == '\u{A0}' || c == '\u{1680}' || c == '\u{2000}' || c == '\u{2001}'
        || c == '\u{2002}' || c == '\u{2003}' || c == '\u{2004}' || c == '\u{2005}' || c
        == '\u{2006}' || c == '\u{2007}' || c == '\u{2008}' || c == '\u{2009}' || c == '\u{200A}'
        || c == '\u{2028}' || c == '\u{2029}' || c == '\u{202F}' || c == '\u{205F}' || c
        == '\u{3000}'
}

/// One left-to-right pass over `s`. `started` records whether a word
/// character was already emitted; `pending` records whether whitespace was
/// seen since then. A run of whitespace becomes one `' '`, and only between
/// words, which trims both ends.
pub open spec fn collapse(s: Seq<char>, started: bool, pending: bool) -> Seq<char>
    decreases s.len(),
{
    if s.len() == 0 {
        Seq::empty()
    } else if is_space(s.first()) {
        collapse(s.drop_first(), started, true)
    } else {
        let sep: Seq<char> = if started && pending {
            seq![' ']
        } else {
            Seq::empty()
        };
        sep + seq![s.first()] + collapse(s.drop_first(), true, false)
    }
}

/// The normalized form of a label: whitespace trimmed at both ends and every
/// internal whitespace run collapsed to a single space.
pub open spec fn spec_normalize_label(s: Seq<char>) -> Seq<char> {
    collapse(s, false, false)
}

/// A sequence already in normalized form: its only whitespace is `' '`,
/// single and internal.
pub open spec fn is_collapsed(s: Seq<char>) -> bool {
    &&& forall|i: int| 0 <= i < s.len() && is_space(#[trigger] s[i]) ==> s[i] == ' '
    &&& forall|i: int| 0 <= i < s.len() - 1 ==> !(is_space(#[trigger] s[i]) && is_space(s[i + 1]))
    &&& s.len() > 0 ==> !is_space(s[0])
    &&& s.len() > 0 ==> !is_space(s[s.len() - 1])
}

proof fn lemma_collapse_shape(s: Seq<char>, started: bool, pending: bool)
    ensures
        ({
            let r = collapse(s, started, pending);
            &&& forall|i: int| 0 <= i < r.len() && is_space(#[trigger] r[i]) ==> r[i] == ' '
            &&& forall|i: int|
                0 <= i < r.len() - 1 ==> !(is_space(#[trigger] r[i]) && is_space(r[i + 1]))
            &&& r.len() > 0 ==> !is_space(r[r.len() - 1])
            &&& (r.len() > 0 && is_space(r[0])) ==> started
        }),
    decreases s.len(),
{
    if s.len() == 0 {
    } else if is_space(s.first()) {
        lemma_collapse_shape(s.drop_first(), started, true);
    } else {
        lemma_collapse_shape(s.drop_first(), true, false);
        let rest = collapse(s.drop_first(), true, false);
        let sep: Seq<char> = if started && pending {
            seq![' ']
        } else {
            Seq::empty()
        };
        let r = sep + seq![s.first()] + collapse(s.drop_first(), true, false);
        assert forall|i: int| 0 <= i < r.len() && is_space(#[trigger] r[i]) implies r[i]
            == ' ' by {
            if i >= sep.len() + 1 {
                assert(r[i] == rest[i - sep.len() - 1]);
            }
        }
        assert forall|i: int| 0 <= i < r.len() - 1 implies !(is_space(#[trigger] r[i]) && is_space(
            r[i + 1],
        )) by {
            if i < sep.len() {
                assert(r[i + 1] == s.first());
            } else if i == sep.len() {
                assert(r[i] == s.first());
            } else {
                assert(r[i] == rest[i - sep.len() - 1]);
                assert(r[i + 1] == rest[i - sep.len()]);
            }
        }
        if r.len() > 0 {
            if rest.len() > 0 {
                assert(r[r.len() - 1] == rest[rest.len() - 1]);
            } else {
                assert(r[r.len() - 1] == s.first());
            }
        }
    }
}

/// Normalization yields a sequence in normalized form.
pub proof fn lemma_normalize_label_collapsed(s: Seq<char>)
    ensures
        is_collapsed(spec_normalize_label(s)),
{
    lemma_collapse_shape(s, false, false);
    let r = spec_normalize_label(s);
    if r.len() > 0 {
        assert(!is_space(r[0]));
    }
}

proof fn lemma_collapse_of_collapsed(t: Seq<char>, started: bool)
    requires
        is_collapsed(t),
    ensures
        collapse(t, started, false) == t,
    decreases t.len(),
{
    if t.len() == 0 {
        assert(collapse(t, started, false) =~= t);
    } else {
        let c = t.first();
        let t1 = t.drop_first();
        assert(!is_space(c));
        if t1.len() == 0 {
            assert(collapse(t1, true, false) =~= Seq::<char>::empty());
            assert(collapse(t, started, false) =~= seq![c] + collapse(t1, true, false));
            assert(seq![c] + Seq::<char>::empty() =~= t);
        } else if !is_space(t1[0]) {
            assert(is_collapsed(t1)) by {
                assert(forall|i: int|
                    0 <= i < t1.len() ==> #[trigger] t1[i] == t[i + 1]);
            }
            lemma_collapse_of_collapsed(t1, true);
            assert(collapse(t, started, false) =~= seq![c] + collapse(t1, true, false));
            assert(seq![c] + t1 =~= t);
        } else {
            // An internal space: exactly one, with word characters on both
            // sides; the pass drops it and re-emits it as the separator.
            assert(t1[0] == t[1] && t[1] == ' ');
            let t2 = t1.drop_first();
            assert(t2.len() > 0) by {
                assert(!is_space(t[t.len() - 1]));
            }
            assert(forall|i: int| 0 <= i < t2.len() ==> #[trigger] t2[i] == t[i + 2]);
            assert(!is_space(t2[0])) by {
                assert(!(is_space(t[1]) && is_space(t[2])));
            }
            assert(is_collapsed(t2));
            lemma_collapse_of_collapsed(t2, true);
            assert(collapse(t1, true, false) == collapse(t2, true, true));
            assert(collapse(t2, true, true) =~= seq![' '] + seq![t2.first()] + collapse(
                t2.drop_first(),
                true,
                false,
            ));
            assert(collapse(t2, true, false) =~= seq![t2.first()] + collapse(
                t2.drop_first(),
                true,
                false,
            ));
            assert(collapse(t2, true, true) =~= seq![' '] + collapse(t2, true, false));
            assert(collapse(t, started, false) =~= seq![c] + collapse(t1, true, false));
            assert(collapse(t, started, false) =~= seq![c] + seq![' '] + t2);
            assert(t =~= seq![c] + seq![' '] + t2);
        }
    }
}

/// Label normalization is idempotent: normalizing an already-normalized
/// label returns it unchanged.
pub proof fn lemma_normalize_label_idempotent(s: Seq<char>)
    ensures
        spec_normalize_label(spec_normalize_label(s)) == spec_normalize_label(s),
{
    lemma_normalize_label_collapsed(s);
    lemma_collapse_of_collapsed(spec_normalize_label(s), false);
}

/// Trim the ends of `s` and collapse each internal whitespace run to one
/// space, so that labels differing only in spacing become one key.
pub fn normalize_label(s: &str) -> (r: String)
    ensures
        r@ == spec_normalize_label(s@),
{
    let n = s.unicode_len();
    let mut r = String::new();
    let mut started = false;
    let mut pending = false;
    let mut i: usize = 0;
    proof {
        assert(s@.skip(0) =~= s@);
    }
    while i < n
        invariant
            n == s@.len(),
            i <= n,
            r@ + collapse(s@.skip(i as int), started, pending) == spec_normalize_label(s@),
        decreases n - i,
    {
        proof {
            assert(s@.skip(i as int).first() == s@[i as int]);
            assert(s@.skip(i as int).drop_first() =~= s@.skip(i as int + 1));
        }
        let c = s.get_char(i);
        if is_space_char(c) {
            pending = true;
        } else {
            if started && pending {
                r.append(" ");
                proof {
                    reveal_strlit(" ");
                }
            }
            let piece = s.substring_char(i, i + 1);
            proof {
                assert(piece@ =~= seq![s@[i as int]]);
            }
            r.append(piece);
            started = true;
            pending = false;
        }
        i = i + 1;
        proof {
            assert(r@ + collapse(s@.skip(i as int), started, pending) =~= spec_normalize_label(
                s@,
            ));
        }
    }
    proof {
        assert(s@.skip(n as int) =~= Seq::<char>::empty());
        assert(r@ + collapse(s@.skip(n as int), started, pending) =~= r@);
    }
    r
}

} // verus!
