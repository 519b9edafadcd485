use slicer_toolbox::aggregate::FileCoordinateSet;
use slicer_toolbox::collate::{sort_files, sort_strings, NaturalCollator};

fn strings(items: &[&str]) -> Vec<String> {
    items.iter().map(|s| s.to_string()).collect()
}

#[test]
fn numeric_runs_compare_by_value() {
    let collator = NaturalCollator::new().unwrap();
    let mut v = strings(&["L2", "L10", "L1"]);
    sort_strings(&collator, &mut v);
    assert_eq!(v, strings(&["L1", "L2", "L10"]));
}

#[test]
fn sorting_is_a_permutation() {
    let collator = NaturalCollator::new().unwrap();
    let mut v = strings(&["b", "a", "b", "c", "a"]);
    sort_strings(&collator, &mut v);
    assert_eq!(v, strings(&["a", "a", "b", "b", "c"]));
}

#[test]
fn case_is_a_tie_breaker_not_a_primary_difference() {
    let collator = NaturalCollator::new().unwrap();
    let mut v = strings(&["beta", "Alpha", "alpha"]);
    sort_strings(&collator, &mut v);
    assert_eq!(v[2], "beta");
    assert!(v[0].eq_ignore_ascii_case("alpha") && v[1].eq_ignore_ascii_case("alpha"));
}

#[test]
fn files_sort_by_name() {
    let collator = NaturalCollator::new().unwrap();
    let mut files = vec![
        FileCoordinateSet::new("subject10.mrb".to_string()),
        FileCoordinateSet::new("subject2.mrb".to_string()),
        FileCoordinateSet::new("subject1.mrb".to_string()),
    ];
    sort_files(&collator, &mut files);
    let names: Vec<&str> = files.iter().map(|f| f.file_name.as_str()).collect();
    assert_eq!(names, ["subject1.mrb", "subject2.mrb", "subject10.mrb"]);
}
