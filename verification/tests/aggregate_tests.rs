use slicer_toolbox::aggregate::{collect_file_coords, distinct_labels, FileCoordinateSet};
use slicer_toolbox::errors::SlicerError;
use slicer_toolbox::markup::{ControlPoint, Markups, SlicerMarkup};
use slicer_toolbox::normalize::Coord;

fn bits3(x: f64, y: f64, z: f64) -> [u64; 3] {
    [x.to_bits(), y.to_bits(), z.to_bits()]
}

fn point(label: &str, x: f64, y: f64, z: f64) -> ControlPoint {
    ControlPoint { label: label.to_string(), position: bits3(x, y, z) }
}

fn doc(system: &str, points: Vec<ControlPoint>) -> SlicerMarkup {
    SlicerMarkup {
        markups: vec![Markups {
            coordinate_system: system.to_string(),
            control_points: points,
        }],
    }
}

fn coord(c: &Coord) -> (f64, f64, f64) {
    (f64::from_bits(c.r), f64::from_bits(c.a), f64::from_bits(c.s))
}

#[test]
fn collects_normalized_labels_and_coordinates() {
    let docs = vec![doc("LPS", vec![point("  Tip   of  nose ", 1.0, 2.0, 3.0)])];
    let f = collect_file_coords("a.mrb".to_string(), &docs).unwrap();
    let c = f.get(&"Tip of nose".to_string()).unwrap();
    assert_eq!(coord(&c), (-1.0, -2.0, 3.0));
    assert!(f.get(&"Tip".to_string()).is_none());
}

#[test]
fn last_write_wins_for_a_duplicate_label() {
    let docs = vec![doc(
        "RAS",
        vec![point("Tip", 1.0, 1.0, 1.0), point(" Tip ", 9.0, 9.0, 9.0)],
    )];
    let f = collect_file_coords("a.mrb".to_string(), &docs).unwrap();
    let c = f.get(&"Tip".to_string()).unwrap();
    assert_eq!(coord(&c), (9.0, 9.0, 9.0));
    assert_eq!(f.entries.len(), 1);
}

#[test]
fn bad_axis_code_aborts_the_file() {
    let docs = vec![doc("XAS", vec![point("Tip", 1.0, 2.0, 3.0)])];
    let e = collect_file_coords("a.mrb".to_string(), &docs).unwrap_err();
    assert!(matches!(e, SlicerError::CoordinateSystemError(_)));
    let docs = vec![doc("RASX", vec![])];
    let e = collect_file_coords("a.mrb".to_string(), &docs).unwrap_err();
    assert!(matches!(e, SlicerError::CoordinateSystemError(_)));
}

#[test]
fn distinct_labels_counts_unique_labels_in_any_order() {
    let mk = |name: &str, labels: &[&str]| {
        let mut f = FileCoordinateSet::new(name.to_string());
        for l in labels {
            f.insert(l.to_string(), Coord { r: 0, a: 0, s: 0 });
        }
        f
    };
    let a = mk("a", &["Tip", "Base", "Left ear"]);
    let b = mk("b", &["Base", "Right ear", "Tip"]);
    let forward = vec![a, b];
    let labels = distinct_labels(&forward);
    assert_eq!(labels.len(), 4);

    let a2 = mk("a", &["Tip", "Base", "Left ear"]);
    let b2 = mk("b", &["Base", "Right ear", "Tip"]);
    let backward = vec![b2, a2];
    let mut l1: Vec<String> = distinct_labels(&forward);
    let mut l2: Vec<String> = distinct_labels(&backward);
    l1.sort();
    l2.sort();
    assert_eq!(l1, l2);
}
