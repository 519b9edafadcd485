use slicer_toolbox::aggregate::FileCoordinateSet;
use slicer_toolbox::collate::NaturalCollator;
use slicer_toolbox::normalize::Coord;
use slicer_toolbox::pipeline::build_reports;
use slicer_toolbox::report::Cell;

fn file(name: &str, entries: &[(&str, f64, f64, f64)]) -> FileCoordinateSet {
    let mut f = FileCoordinateSet::new(name.to_string());
    for (l, r, a, s) in entries {
        f.insert(
            l.to_string(),
            Coord { r: r.to_bits(), a: a.to_bits(), s: s.to_bits() },
        );
    }
    f
}

#[test]
fn reports_come_out_sorted_and_rectangular() {
    let collator = NaturalCollator::new().unwrap();
    let mut files = vec![
        file("case10", &[("L2", 1.0, 1.0, 1.0), ("L10", 2.0, 2.0, 2.0)]),
        file("case2", &[("L1", 3.0, 3.0, 3.0), ("L2", 4.0, 4.0, 4.0)]),
    ];
    let (main, stats, landmarks) = build_reports(&collator, &mut files);

    let names: Vec<&str> = files.iter().map(|f| f.file_name.as_str()).collect();
    assert_eq!(names, ["case2", "case10"]);
    assert_eq!(landmarks, vec!["L1".to_string(), "L2".to_string(), "L10".to_string()]);

    assert_eq!(main.len(), 1 + landmarks.len());
    for row in &main {
        assert_eq!(row.len(), 4 * files.len());
    }
    assert_eq!(stats.len(), 1 + files.len());
    for row in &stats {
        assert_eq!(row.len(), 1 + 2 * landmarks.len());
    }

    // case2 holds L1; case10 does not.
    assert_eq!(main[1][0], Cell::Text("L1".to_string()));
    assert_eq!(main[1][1], Cell::Num(3.0f64.to_bits()));
    assert_eq!(main[1][5], Cell::Empty);
}
