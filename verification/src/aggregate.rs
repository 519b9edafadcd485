use vstd::prelude::*;

use crate::errors::SlicerError;
use crate::label::{normalize_label, spec_normalize_label};
use crate::markup::{all_markups, lemma_all_markups_prefix, ControlPoint, Markups, SlicerMarkup};
use crate::normalize::{normalize_point, spec_normalize_point, Coord};

verus! {

/// The map that a key-value list denotes, later pairs overwriting earlier
/// ones.
pub open spec fn entries_map(s: Seq<(String, Coord)>) -> Map<Seq<char>, Coord>
    decreases s.len(),
{
    if s.len() == 0 {
        Map::empty()
    } else {
        entries_map(s.drop_last()).insert(s.last().0@, s.last().1)
    }
}

proof fn lemma_entries_map_dom(s: Seq<(String, Coord)>)
    ensures
        forall|k: Seq<char>|
            entries_map(s).contains_key(k) <==> exists|i: int|
                0 <= i < s.len() && (#[trigger] s[i]).0@ == k,
    decreases s.len(),
{
    if s.len() > 0 {
        lemma_entries_map_dom(s.drop_last());
        assert forall|k: Seq<char>| entries_map(s).contains_key(k) implies exists|i: int|
            0 <= i < s.len() && (#[trigger] s[i]).0@ == k by {
            assert(entries_map(s) == entries_map(s.drop_last()).insert(s.last().0@, s.last().1));
            if k == s.last().0@ {
                assert((s[s.len() - 1]).0@ == k);
            } else {
                assert(entries_map(s.drop_last()).contains_key(k));
                let i = choose|i: int|
                    0 <= i < s.drop_last().len() && (#[trigger] s.drop_last()[i]).0@ == k;
                assert(s.drop_last()[i] == s[i]);
                assert((s[i]).0@ == k);
            }
        }
        assert forall|k: Seq<char>|
            (exists|i: int| 0 <= i < s.len() && (#[trigger] s[i]).0@ == k) implies entries_map(
            s,
        ).contains_key(k) by {
            assert(entries_map(s) == entries_map(s.drop_last()).insert(s.last().0@, s.last().1));
            let i = choose|i: int| 0 <= i < s.len() && (#[trigger] s[i]).0@ == k;
            if i < s.len() - 1 {
                assert((s.drop_last()[i]).0@ == k);
                assert(entries_map(s.drop_last()).contains_key(k));
            } else {
                assert(k == s.last().0@);
            }
        }
    }
}

proof fn lemma_entries_map_at(s: Seq<(String, Coord)>, i: int)
    requires
        0 <= i < s.len(),
        forall|a: int, b: int|
            0 <= a < b < s.len() ==> (#[trigger] s[a]).0@ != (#[trigger] s[b]).0@,
    ensures
        entries_map(s).contains_key(s[i].0@),
        entries_map(s)[s[i].0@] == s[i].1,
    decreases s.len(),
{
    if i == s.len() - 1 {
    } else {
        lemma_entries_map_at(s.drop_last(), i);
        assert(s.drop_last()[i] == s[i]);
        assert(s[i].0@ != s.last().0@);
    }
}

/// A per-file collection: the source file's name, and its normalized
/// landmarks with their canonical coordinates, one entry per label.
#[derive(Debug)]
pub struct FileCoordinateSet {
    pub file_name: String,
    pub entries: Vec<(String, Coord)>,
}

impl FileCoordinateSet {
    /// Labels are unique: an insertion for a present label overwrote it.
    pub open spec fn wf(self) -> bool {
        forall|a: int, b: int|
            0 <= a < b < self.entries@.len() ==> (#[trigger] self.entries@[a]).0@
                != (#[trigger] self.entries@[b]).0@
    }

    /// The mapping from normalized label to canonical coordinate.
    pub open spec fn map_view(self) -> Map<Seq<char>, Coord> {
        entries_map(self.entries@)
    }

    pub fn new(file_name: String) -> (res: Self)
        ensures
            res.wf(),
            res.file_name@ == file_name@,
            res.map_view() == Map::<Seq<char>, Coord>::empty(),
    {
        FileCoordinateSet { file_name, entries: Vec::new() }
    }

    /// Record a landmark; a later insertion for the same label wins.
    pub fn insert(&mut self, label: String, c: Coord)
        requires
            old(self).wf(),
        ensures
            final(self).wf(),
            final(self).file_name == old(self).file_name,
            final(self).map_view() == old(self).map_view().insert(label@, c),
    {
        let ghost s0 = self.entries@;
        let mut i: usize = 0;
        while i < self.entries.len()
            invariant
                i <= self.entries@.len(),
                self.entries@ == s0,
                s0 == old(self).entries@,
                old(self).wf(),
                self.file_name == old(self).file_name,
                forall|j: int| 0 <= j < i ==> (#[trigger] s0[j]).0@ != label@,
            decreases self.entries@.len() - i,
        {
            if self.entries[i].0.eq(&label) {
                self.entries.set(i, (label, c));
                proof {
                    lemma_entries_map_overwrite(s0, i as int, self.entries@[i as int]);
                }
                return ;
            }
            i = i + 1;
        }
        self.entries.push((label, c));
        proof {
            assert(self.entries@.drop_last() =~= s0);
        }
    }

    /// The coordinate recorded for a normalized label, if any.
    pub fn get(&self, label: &String) -> (res: Option<Coord>)
        requires
            self.wf(),
        ensures
            res is Some <==> self.map_view().contains_key(label@),
            res is Some ==> res->0 == self.map_view()[label@],
    {
        proof {
            lemma_entries_map_dom(self.entries@);
        }
        let mut i: usize = 0;
        while i < self.entries.len()
            invariant
                self.wf(),
                i <= self.entries@.len(),
                forall|j: int| 0 <= j < i ==> (#[trigger] self.entries@[j]).0@ != label@,
                forall|k: Seq<char>|
                    self.map_view().contains_key(k) <==> exists|j: int|
                        0 <= j < self.entries@.len() && (#[trigger] self.entries@[j]).0@ == k,
            decreases self.entries@.len() - i,
        {
            if self.entries[i].0.eq(label) {
                proof {
                    lemma_entries_map_at(self.entries@, i as int);
                }
                return Some(self.entries[i].1);
            }
            i = i + 1;
        }
        proof {
            lemma_entries_map_dom(self.entries@);
        }
        None
    }
}

/// When the aggregator accepts one markup: a three-character code whose
/// every point normalizes.
pub open spec fn markup_ok(m: Markups) -> bool {
    &&& m.coordinate_system@.len() == 3
    &&& forall|j: int|
        0 <= j < m.control_points@.len() ==> spec_normalize_point(
            m.coordinate_system@,
            (#[trigger] m.control_points@[j]).position@,
        ) is Some
}

/// Fold one markup's points into a label map, in order, last write winning.
pub open spec fn agg_points(
    base: Map<Seq<char>, Coord>,
    code: Seq<char>,
    pts: Seq<ControlPoint>,
) -> Map<Seq<char>, Coord>
    decreases pts.len(),
{
    if pts.len() == 0 {
        base
    } else {
        agg_points(base, code, pts.drop_last()).insert(
            spec_normalize_label(pts.last().label@),
            spec_normalize_point(code, pts.last().position@)->0,
        )
    }
}

/// The label map of a whole markup list.
pub open spec fn agg_markups(ms: Seq<Markups>) -> Map<Seq<char>, Coord>
    decreases ms.len(),
{
    if ms.len() == 0 {
        Map::empty()
    } else {
        agg_points(
            agg_markups(ms.drop_last()),
            ms.last().coordinate_system@,
            ms.last().control_points@,
        )
    }
}

/// Build one file's landmark map: normalize every label and every
/// coordinate of every markup, in order, a later point overwriting an
/// earlier one with the same normalized label.
pub fn collect_file_coords(file_name: String, docs: &Vec<SlicerMarkup>) -> (res: Result<
    FileCoordinateSet,
    SlicerError,
>)
    ensures
        res is Ok <==> (forall|i: int|
            0 <= i < all_markups(docs@).len() ==> markup_ok(#[trigger] all_markups(docs@)[i])),
        res is Ok ==> ({
            let f = res->Ok_0;
            &&& f.wf()
            &&& f.file_name@ == file_name@
            &&& f.map_view() == agg_markups(all_markups(docs@))
        }),
        res is Err ==> res->Err_0 is CoordinateSystemError,
{
    let mut fcs = FileCoordinateSet::new(file_name);
    let ghost fname = fcs.file_name@;
    let mut d: usize = 0;
    while d < docs.len()
        invariant
            d <= docs.len(),
            fcs.wf(),
            fcs.file_name@ == fname,
            ({
                let ms = all_markups(docs@.take(d as int));
                &&& fcs.map_view() == agg_markups(ms)
                &&& forall|i: int| 0 <= i < ms.len() ==> markup_ok(#[trigger] ms[i])
            }),
        decreases docs.len() - d,
    {
        let ghost ms0 = all_markups(docs@.take(d as int));
        let doc = &docs[d];
        let mut k: usize = 0;
        while k < doc.markups.len()
            invariant
                d < docs.len(),
                doc == &docs@[d as int],
                ms0 == all_markups(docs@.take(d as int)),
                k <= doc.markups.len(),
                fcs.wf(),
                fcs.file_name@ == fname,
                ({
                    let ms = ms0 + doc.markups@.take(k as int);
                    &&& fcs.map_view() == agg_markups(ms)
                    &&& forall|i: int| 0 <= i < ms.len() ==> markup_ok(#[trigger] ms[i])
                }),
            decreases doc.markups.len() - k,
        {
            let ghost ms = ms0 + doc.markups@.take(k as int);
            let m = &doc.markups[k];
            proof {
                lemma_all_markups_prefix(docs@, d as int + 1);
                assert(docs@.take(d as int + 1).drop_last() =~= docs@.take(d as int));
                assert(docs@.take(d as int + 1).last() == docs@[d as int]);
                assert(all_markups(docs@.take(d as int + 1)) == ms0 + doc.markups@);
                assert((ms0 + doc.markups@)[ms.len() as int] == doc.markups@[k as int]);
                assert(all_markups(docs@)[ms.len() as int] == doc.markups@[k as int]);
            }
            if m.coordinate_system.as_str().unicode_len() != 3 {
                return Err(
                    SlicerError::CoordinateSystemError(
                        "invalid coordinate system: should be three characters".to_owned(),
                    ),
                );
            }
            let mut p: usize = 0;
            while p < m.control_points.len()
                invariant
                    d < docs.len(),
                    doc == &docs@[d as int],
                    k < doc.markups.len(),
                    m == &doc.markups@[k as int],
                    m.coordinate_system@.len() == 3,
                    p <= m.control_points.len(),
                    ms == ms0 + doc.markups@.take(k as int),
                    ms0 == all_markups(docs@.take(d as int)),
                    d as int + 1 <= docs@.len(),
                    all_markups(docs@)[ms.len() as int] == doc.markups@[k as int],
                    ms.len() < all_markups(docs@).len(),
                    fcs.wf(),
                    fcs.file_name@ == fname,
                    fcs.map_view() == agg_points(
                        agg_markups(ms),
                        m.coordinate_system@,
                        m.control_points@.take(p as int),
                    ),
                    forall|i: int| 0 <= i < ms.len() ==> markup_ok(#[trigger] ms[i]),
                    forall|j: int|
                        0 <= j < p ==> spec_normalize_point(
                            m.coordinate_system@,
                            (#[trigger] m.control_points@[j]).position@,
                        ) is Some,
                decreases m.control_points.len() - p,
            {
                let cp = &m.control_points[p];
                match normalize_point(&m.coordinate_system, &cp.position) {
                    Err(e) => {
                        proof {
                            assert(!markup_ok(all_markups(docs@)[ms.len() as int]));
                        }
                        return Err(e);
                    },
                    Ok(c) => {
                        let label = normalize_label(cp.label.as_str());
                        fcs.insert(label, c);
                        proof {
                            assert(m.control_points@.take(p as int + 1)
                                =~= m.control_points@.take(p as int).push(
                                m.control_points@[p as int],
                            ));
                            assert(m.control_points@.take(p as int + 1).drop_last()
                                =~= m.control_points@.take(p as int));
                            assert(m.control_points@.take(p as int + 1).last()
                                == m.control_points@[p as int]);
                            assert(agg_points(
                                agg_markups(ms),
                                m.coordinate_system@,
                                m.control_points@.take(p as int + 1),
                            ) == fcs.map_view());
                        }
                    },
                }
                p = p + 1;
            }
            proof {
                assert(m.control_points@.take(m.control_points@.len() as int)
                    =~= m.control_points@);
                let msk1 = ms0 + doc.markups@.take(k as int + 1);
                assert(doc.markups@.take(k as int + 1) =~= doc.markups@.take(k as int).push(
                    doc.markups@[k as int],
                ));
                assert(msk1 =~= ms.push(doc.markups@[k as int]));
                assert(msk1.drop_last() =~= ms);
                assert(msk1.last() == doc.markups@[k as int]);
                assert(markup_ok(doc.markups@[k as int]));
            }
            k = k + 1;
        }
        proof {
            assert(doc.markups@.take(doc.markups@.len() as int) =~= doc.markups@);
            assert(docs@.take(d as int + 1).drop_last() =~= docs@.take(d as int));
            assert(docs@.take(d as int + 1).last() == docs@[d as int]);
            assert(all_markups(docs@.take(d as int + 1)) == ms0 + doc.markups@);
        }
        d = d + 1;
    }
    proof {
        assert(docs@.take(docs@.len() as int) =~= docs@);
    }
    Ok(fcs)
}

/// The set of distinct normalized labels over a list of files.
pub open spec fn all_labels(files: Seq<FileCoordinateSet>) -> Set<Seq<char>>
    decreases files.len(),
{
    if files.len() == 0 {
        Set::empty()
    } else {
        all_labels(files.drop_last()).union(files.last().map_view().dom())
    }
}

/// Whether some element of `v` reads as `s`.
pub fn contains_string(v: &Vec<String>, s: &String) -> (res: bool)
    ensures
        res <==> exists|j: int| 0 <= j < v@.len() && (#[trigger] v@[j])@ == s@,
{
    let mut i: usize = 0;
    while i < v.len()
        invariant
            i <= v@.len(),
            forall|j: int| 0 <= j < i ==> (#[trigger] v@[j])@ != s@,
        decreases v@.len() - i,
    {
        if v[i].eq(s) {
            return true;
        }
        i = i + 1;
    }
    false
}

/// Whether some element of `out` reads as `k`.
pub open spec fn seq_has_label(out: Seq<String>, k: Seq<char>) -> bool {
    exists|j: int| 0 <= j < out.len() && (#[trigger] out[j])@ == k
}

/// Every normalized label seen across all files, each exactly once: the
/// size of the result is the count of unique normalized labels, in
/// whatever order the files are walked.
pub fn distinct_labels(files: &Vec<FileCoordinateSet>) -> (res: Vec<String>)
    ensures
        res@.map_values(|s: String| s@).no_duplicates(),
        res@.map_values(|s: String| s@).to_set() == all_labels(files@),
        res@.len() == all_labels(files@).len(),
{
    let mut out: Vec<String> = Vec::new();
    let mut fi: usize = 0;
    proof {
        assert(files@.take(0) =~= Seq::<FileCoordinateSet>::empty());
    }
    while fi < files.len()
        invariant
            fi <= files.len(),
            forall|a: int, b: int|
                0 <= a < b < out@.len() ==> (#[trigger] out@[a])@ != (#[trigger] out@[b])@,
            forall|k: Seq<char>|
                #[trigger] seq_has_label(out@, k) <==> all_labels(files@.take(fi as int)).contains(
                    k,
                ),
        decreases files.len() - fi,
    {
        let file = &files[fi];
        let ghost labels0 = all_labels(files@.take(fi as int));
        let mut e: usize = 0;
        proof {
            lemma_entries_map_dom(file.entries@.take(0));
            assert(file.entries@.take(0) =~= Seq::<(String, Coord)>::empty());
        }
        while e < file.entries.len()
            invariant
                fi < files.len(),
                file == &files@[fi as int],
                e <= file.entries.len(),
                labels0 == all_labels(files@.take(fi as int)),
                forall|a: int, b: int|
                    0 <= a < b < out@.len() ==> (#[trigger] out@[a])@ != (#[trigger] out@[b])@,
                forall|k: Seq<char>|
                    #[trigger] seq_has_label(out@, k) <==> (labels0.contains(k) || entries_map(
                        file.entries@.take(e as int),
                    ).dom().contains(k)),
            decreases file.entries.len() - e,
        {
            let label = &file.entries[e].0;
            let ghost pre = out@;
            if !contains_string(&out, label) {
                out.push(label.clone());
                proof {
                    assert forall|k: Seq<char>| #[trigger]
                        seq_has_label(out@, k) <==> (seq_has_label(pre, k) || k == label@) by {
                        if seq_has_label(out@, k) {
                            let j = choose|j: int|
                                0 <= j < out@.len() && (#[trigger] out@[j])@ == k;
                            if j < pre.len() {
                                assert(pre[j]@ == k);
                            }
                        }
                        if seq_has_label(pre, k) {
                            let j = choose|j: int| 0 <= j < pre.len() && (#[trigger] pre[j])@ == k;
                            assert(out@[j]@ == k);
                        }
                        if k == label@ {
                            assert(out@[pre.len() as int]@ == k);
                        }
                    }
                }
            } else {
                proof {
                    assert(seq_has_label(out@, label@));
                }
            }
            proof {
                lemma_entries_map_dom(file.entries@.take(e as int));
                lemma_entries_map_dom(file.entries@.take(e as int + 1));
                assert(file.entries@.take(e as int + 1) =~= file.entries@.take(e as int).push(
                    file.entries@[e as int],
                ));
                assert forall|k: Seq<char>|
                    entries_map(file.entries@.take(e as int + 1)).dom().contains(k)
                        <==> (entries_map(file.entries@.take(e as int)).dom().contains(k) || k
                        == label@) by {
                    let t1 = file.entries@.take(e as int + 1);
                    let t0 = file.entries@.take(e as int);
                    if entries_map(t1).contains_key(k) {
                        let i = choose|i: int| 0 <= i < t1.len() && (#[trigger] t1[i]).0@ == k;
                        if i < t0.len() {
                            assert((t0[i]).0@ == k);
                        }
                    }
                    if entries_map(t0).contains_key(k) {
                        let i = choose|i: int| 0 <= i < t0.len() && (#[trigger] t0[i]).0@ == k;
                        assert((t1[i]).0@ == k);
                    }
                    if k == label@ {
                        assert((t1[t1.len() - 1]).0@ == k);
                    }
                }
            }
            e = e + 1;
        }
        proof {
            assert(file.entries@.take(file.entries@.len() as int) =~= file.entries@);
            assert(files@.take(fi as int + 1).drop_last() =~= files@.take(fi as int));
            assert(files@.take(fi as int + 1).last() == files@[fi as int]);
            assert(all_labels(files@.take(fi as int + 1)) == labels0.union(
                files@[fi as int].map_view().dom(),
            ));
        }
        fi = fi + 1;
    }
    proof {
        assert(files@.take(files@.len() as int) =~= files@);
        let mv = out@.map_values(|s: String| s@);
        assert forall|a: int, b: int| 0 <= a < b < mv.len() implies mv[a] != mv[b] by {
            assert(mv[a] == out@[a]@ && mv[b] == out@[b]@);
        }
        assert(mv.no_duplicates());
        assert forall|k: Seq<char>| mv.to_set().contains(k) <==> all_labels(files@).contains(
            k,
        ) by {
            if mv.to_set().contains(k) {
                let i = choose|i: int| 0 <= i < mv.len() && mv[i] == k;
                assert(out@[i]@ == k);
                assert(seq_has_label(out@, k));
            }
            if all_labels(files@).contains(k) {
                assert(seq_has_label(out@, k));
                let j = choose|j: int| 0 <= j < out@.len() && (#[trigger] out@[j])@ == k;
                assert(mv[j] == k);
                assert(mv.contains(k));
            }
        }
        assert(mv.to_set() =~= all_labels(files@));
        mv.unique_seq_to_set();
    }
    out
}

proof fn lemma_entries_map_overwrite(s: Seq<(String, Coord)>, i: int, x: (String, Coord))
    requires
        0 <= i < s.len(),
        forall|a: int, b: int|
            0 <= a < b < s.len() ==> (#[trigger] s[a]).0@ != (#[trigger] s[b]).0@,
        s[i].0@ == x.0@,
    ensures
        ({
            let t = s.update(i, x);
            &&& forall|a: int, b: int|
                0 <= a < b < t.len() ==> (#[trigger] t[a]).0@ != (#[trigger] t[b]).0@
            &&& entries_map(t) == entries_map(s).insert(x.0@, x.1)
        }),
    decreases s.len(),
{
    let t = s.update(i, x);
    if i == s.len() - 1 {
        assert(t.drop_last() =~= s.drop_last());
        assert(t.last() == x);
        assert(entries_map(t) =~= entries_map(s).insert(x.0@, x.1));
    } else {
        lemma_entries_map_overwrite(s.drop_last(), i, x);
        assert(t.drop_last() =~= s.drop_last().update(i, x));
        assert(t.last() == s.last());
        assert(s.last().0@ != x.0@);
        assert(entries_map(t) =~= entries_map(s).insert(x.0@, x.1));
    }
}

} // verus!
