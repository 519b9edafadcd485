use vstd::prelude::*;

use crate::aggregate::{all_labels, distinct_labels, FileCoordinateSet};
use crate::collate::{
    elements_from, file_name_views, sort_files, sort_strings, sorted_by_collation, string_views,
    NaturalCollator,
};
use crate::report::{
    create_main_data, create_statistics, main_header_ok, main_row_ok, stat_header_ok,
    stat_row_ok, Cell,
};

verus! {

proof fn lemma_view_set_contained(s1: Seq<String>, s2: Seq<String>)
    requires
        s1.to_multiset() == s2.to_multiset(),
    ensures
        forall|k: Seq<char>|
            string_views(s1).to_set().contains(k) ==> #[trigger] string_views(s2).to_set().contains(
                k,
            ),
{
    broadcast use vstd::seq_lib::group_to_multiset_ensures;

    assert forall|k: Seq<char>| string_views(s1).to_set().contains(k) implies #[trigger] string_views(
        s2,
    ).to_set().contains(k) by {
        assert(string_views(s1).contains(k));
        let i = choose|i: int| 0 <= i < string_views(s1).len() && string_views(s1)[i] == k;
        assert(s1.contains(s1[i]));
        assert(s2.to_multiset().count(s1[i]) > 0);
        assert(s2.contains(s1[i]));
        let j = choose|j: int| 0 <= j < s2.len() && s2[j] == s1[i];
        assert(string_views(s2)[j] == k);
        assert(string_views(s2).contains(k));
    }
}

/// A permutation of a string list keeps the set of its contents.
proof fn lemma_view_set_permuted(s1: Seq<String>, s2: Seq<String>)
    requires
        s1.to_multiset() == s2.to_multiset(),
    ensures
        string_views(s1).to_set() == string_views(s2).to_set(),
{
    lemma_view_set_contained(s1, s2);
    lemma_view_set_contained(s2, s1);
    assert(string_views(s1).to_set() =~= string_views(s2).to_set());
}

/// The compute core of one run, after every file was aggregated: order the
/// files and the distinct labels by natural collation and lay the two
/// report tables out. Returns the main-data rows, the statistics rows and
/// the sorted landmark list.
pub fn build_reports(collator: &NaturalCollator, files: &mut Vec<FileCoordinateSet>) -> (res: (
    Vec<Vec<Cell>>,
    Vec<Vec<Cell>>,
    Vec<String>,
))
    requires
        forall|i: int| 0 <= i < old(files)@.len() ==> (#[trigger] old(files)@[i]).wf(),
    ensures
        final(files)@.to_multiset() == old(files)@.to_multiset(),
        sorted_by_collation(file_name_views(final(files)@)),
        res.2@.len() == all_labels(final(files)@).len(),
        string_views(res.2@).to_set() == all_labels(final(files)@),
        sorted_by_collation(string_views(res.2@)),
        res.0@.len() == 1 + res.2@.len(),
        forall|r: int|
            0 <= r < res.0@.len() ==> (#[trigger] res.0@[r])@.len() == 4 * final(files)@.len(),
        main_header_ok(res.0@[0]@, final(files)@),
        forall|l: int|
            0 <= l < res.2@.len() ==> #[trigger] main_row_ok(res.0@, final(files)@, res.2@, l),
        res.1@.len() == 1 + final(files)@.len(),
        forall|r: int|
            0 <= r < res.1@.len() ==> (#[trigger] res.1@[r])@.len() == 1 + 2 * res.2@.len(),
        stat_header_ok(res.1@[0]@, res.2@),
        forall|f: int|
            0 <= f < final(files)@.len() ==> #[trigger] stat_row_ok(
                res.1@,
                final(files)@,
                res.2@,
                f,
            ),
{
    sort_files(collator, files);
    proof {
        assert(elements_from(files@, old(files)@));
        assert forall|i: int| 0 <= i < files@.len() implies (#[trigger] files@[i]).wf() by {
            assert(old(files)@.contains(files@[i]));
        }
    }
    let mut landmarks = distinct_labels(files);
    let ghost lm0 = landmarks@;
    sort_strings(collator, &mut landmarks);
    proof {
        lemma_view_set_permuted(lm0, landmarks@);
    }
    let main_rows = create_main_data(files, &landmarks);
    let stats_rows = create_statistics(files, &landmarks);
    (main_rows, stats_rows, landmarks)
}

} // verus!
