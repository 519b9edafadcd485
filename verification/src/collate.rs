use vstd::prelude::*;

use vstd::multiset::Multiset;

use crate::aggregate::FileCoordinateSet;
use crate::errors::SlicerError;

verus! {

/// Declares icu_collator's borrowed collator, so that a field can hold
/// one; the value stays opaque to verification.
#[verifier::external_type_specification]
#[verifier::external_body]
pub struct ExCollatorBorrowed<'a>(icu_collator::CollatorBorrowed<'a>);

/// The comparison that the natural collation defines over two strings:
/// negative when the first sorts before the second, zero when they rank
/// equal, positive when it sorts after.
pub uninterp spec fn collation_order(a: Seq<char>, b: Seq<char>) -> int;

/// A collator for the root locale with numeric ordering on and alternate
/// handling shifted: digit runs compare by numeric value, case and
/// punctuation weigh less than letters.
pub struct NaturalCollator {
    inner: icu_collator::CollatorBorrowed<'static>,
}

impl NaturalCollator {
    /// Relies on icu_collator::Collator::try_new with the crate's compiled
    /// root-locale data, numeric ordering on and alternate handling
    /// shifted; None when the collation data cannot be loaded.
    #[verifier::external_body]
    fn build() -> (res: Option<NaturalCollator>) {
        let mut prefs = icu_collator::CollatorPreferences::default();
        prefs.numeric_ordering = Some(icu_collator::preferences::CollationNumericOrdering::True);
        let mut options = icu_collator::options::CollatorOptions::default();
        options.alternate_handling = Some(icu_collator::options::AlternateHandling::Shifted);
        match icu_collator::Collator::try_new(prefs, options) {
            Ok(inner) => Some(NaturalCollator { inner }),
            Err(_) => None,
        }
    }

    pub fn new() -> (res: Result<NaturalCollator, SlicerError>)
        ensures
            res is Err ==> res->Err_0 is IOError,
    {
        match Self::build() {
            Some(c) => Ok(c),
            None => Err(SlicerError::IOError("the collation data could not be loaded".to_owned())),
        }
    }

    /// Relies on icu_collator::CollatorBorrowed::compare over well-formed
    /// UTF-8: the outcome is a function of the two strings and the
    /// compiled collation data alone. A collation is a total preorder, so
    /// swapping the arguments flips the outcome, equal strings rank equal,
    /// and the order is transitive.
    #[verifier::external_body]
    fn compare_raw(&self, a: &str, b: &str) -> (res: i8)
        ensures
            -1 <= res <= 1,
            res as int == collation_order(a@, b@),
            collation_order(b@, a@) == -(res as int),
            a@ == b@ ==> res == 0,
            forall|c: Seq<char>|
                res <= 0 && #[trigger] collation_order(c, a@) <= 0 ==> collation_order(c, b@)
                    <= 0,
    {
        match self.inner.compare(a, b) {
            core::cmp::Ordering::Less => -1,
            core::cmp::Ordering::Equal => 0,
            core::cmp::Ordering::Greater => 1,
        }
    }
}

/// Every pair of positions stands in collation order.
pub open spec fn sorted_by_collation(s: Seq<Seq<char>>) -> bool {
    forall|i: int, j: int|
        0 <= i < j < s.len() ==> collation_order(#[trigger] s[i], #[trigger] s[j]) <= 0
}

/// The contents of a string list, as character sequences.
pub open spec fn string_views(s: Seq<String>) -> Seq<Seq<char>> {
    s.map_values(|t: String| t@)
}

/// The file names of a file list, as character sequences.
pub open spec fn file_name_views(s: Seq<FileCoordinateSet>) -> Seq<Seq<char>> {
    s.map_values(|f: FileCoordinateSet| f.file_name@)
}

/// Every element of `s` stands somewhere in `orig`.
pub open spec fn elements_from(s: Seq<FileCoordinateSet>, orig: Seq<FileCoordinateSet>) -> bool {
    forall|i: int| 0 <= i < s.len() ==> orig.contains(#[trigger] s[i])
}

proof fn lemma_to_multiset_insert<A>(s: Seq<A>, pos: int, x: A)
    requires
        0 <= pos <= s.len(),
    ensures
        s.insert(pos, x).to_multiset() == s.to_multiset().insert(x),
{
    broadcast use vstd::multiset::group_multiset_axioms;

    let t = s.insert(pos, x);
    assert(t =~= s.take(pos) + (seq![x] + s.skip(pos)));
    vstd::seq_lib::lemma_multiset_commutative(s.take(pos), seq![x] + s.skip(pos));
    vstd::seq_lib::lemma_multiset_commutative(seq![x], s.skip(pos));
    assert(s =~= s.take(pos) + s.skip(pos));
    vstd::seq_lib::lemma_multiset_commutative(s.take(pos), s.skip(pos));
    broadcast use vstd::seq_lib::group_to_multiset_ensures;

    assert(seq![x] =~= Seq::<A>::empty().push(x));
    assert forall|a: A| Seq::<A>::empty().to_multiset().count(a) == 0 by {
        assert(!Seq::<A>::empty().contains(a));
    }
    assert(Seq::<A>::empty().to_multiset() =~= Multiset::<A>::empty());
    assert(seq![x].to_multiset() =~= Multiset::<A>::empty().insert(x));
    assert(t.to_multiset() =~= s.to_multiset().insert(x));
}

proof fn lemma_remove_insert_multiset<A>(s: Seq<A>, i: int, pos: int)
    requires
        0 <= i < s.len(),
        0 <= pos <= s.len() - 1,
    ensures
        s.remove(i).insert(pos, s[i]).to_multiset() == s.to_multiset(),
{
    broadcast use vstd::multiset::group_multiset_axioms;
    broadcast use vstd::seq_lib::group_to_multiset_ensures;

    lemma_to_multiset_insert(s.remove(i), pos, s[i]);
    assert(s.remove(i).to_multiset() == s.to_multiset().remove(s[i]));
    assert(s.to_multiset().count(s[i]) > 0) by {
        assert(s.contains(s[i]));
    }
    assert(s.to_multiset().remove(s[i]).insert(s[i]) =~= s.to_multiset());
}

/// Sort string contents into natural collation order; a permutation of the
/// input.
pub fn sort_strings(collator: &NaturalCollator, v: &mut Vec<String>)
    ensures
        final(v)@.to_multiset() == old(v)@.to_multiset(),
        final(v)@.len() == old(v)@.len(),
        sorted_by_collation(string_views(final(v)@)),
{
    let mut i: usize = 1;
    while i < v.len()
        invariant
            1 <= i,
            v@.len() == old(v)@.len(),
            v@.to_multiset() == old(v)@.to_multiset(),
            v@.len() == 0 || i as int <= v@.len() || v@.len() == 1,
            sorted_by_collation(string_views(v@).take(if i as int <= v@.len() {
                i as int
            } else {
                v@.len() as int
            })),
        decreases v@.len() - i,
    {
        let ghost s_old = v@;
        let ghost vs = string_views(v@);
        let ghost xv = vs[i as int];
        let mut pos: usize = i;
        loop
            invariant_except_break
                pos <= i,
                i < v@.len(),
                v@ == s_old,
                vs == string_views(v@),
                xv == vs[i as int],
                forall|k: int|
                    pos <= k < i ==> collation_order(#[trigger] vs[k], xv) > 0 && collation_order(
                        xv,
                        vs[k],
                    ) < 0,
            ensures
                pos <= i,
                i < v@.len(),
                v@ == s_old,
                forall|k: int|
                    pos <= k < i ==> collation_order(#[trigger] vs[k], xv) > 0 && collation_order(
                        xv,
                        vs[k],
                    ) < 0,
                pos > 0 ==> collation_order(vs[pos - 1], xv) <= 0,
                pos > 0 ==> forall|c: Seq<char>|
                    #[trigger] collation_order(c, vs[pos - 1]) <= 0 ==> collation_order(c, xv)
                        <= 0,
            decreases pos,
        {
            if pos == 0 {
                break ;
            }
            let c = collator.compare_raw(v[pos - 1].as_str(), v[i].as_str());
            if c <= 0 {
                break ;
            }
            pos = pos - 1;
        }
        let x = v.remove(i);
        v.insert(pos, x);
        proof {
            lemma_remove_insert_multiset(s_old, i as int, pos as int);
            let s_new = s_old.remove(i as int).insert(pos as int, s_old[i as int]);
            assert(v@ == s_new);
            s_old.remove_ensures(i as int);
            s_old.remove(i as int).insert_ensures(pos as int, s_old[i as int]);
            let ns = string_views(v@);
            let tp = vs.take(i as int);
            assert(sorted_by_collation(tp));
            assert forall|t: int| 0 <= t < pos implies ns[t] == vs[t] by {
                assert(s_new[t] == s_old.remove(i as int)[t]);
                assert(s_old.remove(i as int)[t] == s_old[t]);
            }
            assert(ns[pos as int] == xv);
            assert forall|t: int| pos < t <= i implies ns[t] == vs[t - 1] by {
                assert(s_new[t] == s_old.remove(i as int)[t - 1]);
                assert(s_old.remove(i as int)[t - 1] == s_old[t - 1]);
            }
            assert forall|a: int, b: int|
                0 <= a < b < i as int + 1 implies collation_order(#[trigger] ns[a], #[trigger] ns[b])
                <= 0 by {
                if b < pos {
                    assert(collation_order(tp[a], tp[b]) <= 0);
                    assert(ns[a] == vs[a] && ns[b] == vs[b]);
                } else if b == pos {
                    assert(ns[b] == xv && ns[a] == vs[a]);
                    if a < pos - 1 {
                        assert(collation_order(tp[a], tp[pos - 1]) <= 0);
                        assert(collation_order(vs[a], vs[pos - 1]) <= 0);
                    }
                    assert(collation_order(vs[a], xv) <= 0);
                } else {
                    assert(ns[b] == vs[b - 1]);
                    if a < pos {
                        assert(ns[a] == vs[a]);
                        assert(collation_order(tp[a], tp[b - 1]) <= 0);
                    } else if a == pos {
                        assert(ns[a] == xv);
                        assert(collation_order(xv, vs[b - 1]) < 0);
                    } else {
                        assert(ns[a] == vs[a - 1]);
                        assert(collation_order(tp[a - 1], tp[b - 1]) <= 0);
                    }
                }
            }
            assert(sorted_by_collation(string_views(v@).take(i as int + 1)));
        }
        i = i + 1;
    }
    proof {
        if v@.len() > 1 {
            assert(string_views(v@).take(v@.len() as int) =~= string_views(v@));
        } else {
            assert(sorted_by_collation(string_views(v@)));
        }
    }
}

/// Sort the per-file collections by file name into natural collation
/// order; a permutation of the input.
pub fn sort_files(collator: &NaturalCollator, v: &mut Vec<FileCoordinateSet>)
    ensures
        final(v)@.to_multiset() == old(v)@.to_multiset(),
        final(v)@.len() == old(v)@.len(),
        sorted_by_collation(file_name_views(final(v)@)),
        elements_from(final(v)@, old(v)@),
{
    let mut i: usize = 1;
    while i < v.len()
        invariant
            1 <= i,
            v@.len() == old(v)@.len(),
            v@.to_multiset() == old(v)@.to_multiset(),
            v@.len() == 0 || i as int <= v@.len() || v@.len() == 1,
            sorted_by_collation(file_name_views(v@).take(if i as int <= v@.len() {
                i as int
            } else {
                v@.len() as int
            })),
        decreases v@.len() - i,
    {
        let ghost s_old = v@;
        let ghost vs = file_name_views(v@);
        let ghost xv = vs[i as int];
        let mut pos: usize = i;
        loop
            invariant_except_break
                pos <= i,
                i < v@.len(),
                v@ == s_old,
                vs == file_name_views(v@),
                xv == vs[i as int],
                forall|k: int|
                    pos <= k < i ==> collation_order(#[trigger] vs[k], xv) > 0 && collation_order(
                        xv,
                        vs[k],
                    ) < 0,
            ensures
                pos <= i,
                i < v@.len(),
                v@ == s_old,
                forall|k: int|
                    pos <= k < i ==> collation_order(#[trigger] vs[k], xv) > 0 && collation_order(
                        xv,
                        vs[k],
                    ) < 0,
                pos > 0 ==> collation_order(vs[pos - 1], xv) <= 0,
                pos > 0 ==> forall|c: Seq<char>|
                    #[trigger] collation_order(c, vs[pos - 1]) <= 0 ==> collation_order(c, xv)
                        <= 0,
            decreases pos,
        {
            if pos == 0 {
                break ;
            }
            let c = collator.compare_raw(v[pos - 1].file_name.as_str(), v[i].file_name.as_str());
            if c <= 0 {
                break ;
            }
            pos = pos - 1;
        }
        let x = v.remove(i);
        v.insert(pos, x);
        proof {
            lemma_remove_insert_multiset(s_old, i as int, pos as int);
            let s_new = s_old.remove(i as int).insert(pos as int, s_old[i as int]);
            assert(v@ == s_new);
            s_old.remove_ensures(i as int);
            s_old.remove(i as int).insert_ensures(pos as int, s_old[i as int]);
            let ns = file_name_views(v@);
            let tp = vs.take(i as int);
            assert(sorted_by_collation(tp));
            assert forall|t: int| 0 <= t < pos implies ns[t] == vs[t] by {
                assert(s_new[t] == s_old.remove(i as int)[t]);
                assert(s_old.remove(i as int)[t] == s_old[t]);
            }
            assert(ns[pos as int] == xv);
            assert forall|t: int| pos < t <= i implies ns[t] == vs[t - 1] by {
                assert(s_new[t] == s_old.remove(i as int)[t - 1]);
                assert(s_old.remove(i as int)[t - 1] == s_old[t - 1]);
            }
            assert forall|a: int, b: int|
                0 <= a < b < i as int + 1 implies collation_order(#[trigger] ns[a], #[trigger] ns[b])
                <= 0 by {
                if b < pos {
                    assert(collation_order(tp[a], tp[b]) <= 0);
                    assert(ns[a] == vs[a] && ns[b] == vs[b]);
                } else if b == pos {
                    assert(ns[b] == xv && ns[a] == vs[a]);
                    if a < pos - 1 {
                        assert(collation_order(tp[a], tp[pos - 1]) <= 0);
                        assert(collation_order(vs[a], vs[pos - 1]) <= 0);
                    }
                    assert(collation_order(vs[a], xv) <= 0);
                } else {
                    assert(ns[b] == vs[b - 1]);
                    if a < pos {
                        assert(ns[a] == vs[a]);
                        assert(collation_order(tp[a], tp[b - 1]) <= 0);
                    } else if a == pos {
                        assert(ns[a] == xv);
                        assert(collation_order(xv, vs[b - 1]) < 0);
                    } else {
                        assert(ns[a] == vs[a - 1]);
                        assert(collation_order(tp[a - 1], tp[b - 1]) <= 0);
                    }
                }
            }
            assert(sorted_by_collation(file_name_views(v@).take(i as int + 1)));
        }
        i = i + 1;
    }
    proof {
        if v@.len() > 1 {
            assert(file_name_views(v@).take(v@.len() as int) =~= file_name_views(v@));
        } else {
            assert(sorted_by_collation(file_name_views(v@)));
        }
        broadcast use vstd::seq_lib::group_to_multiset_ensures;

        assert forall|i: int| 0 <= i < v@.len() implies old(v)@.contains(#[trigger] v@[i]) by {
            assert(v@.contains(v@[i]));
            assert(v@.to_multiset().count(v@[i]) > 0);
            assert(old(v)@.to_multiset().count(v@[i]) > 0);
        }
        assert(elements_from(v@, old(v)@));
    }
}

} // verus!
