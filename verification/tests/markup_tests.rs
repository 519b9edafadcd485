use slicer_toolbox::errors::SlicerError;
use slicer_toolbox::markup::{parse_slicer_markups, ControlPoint, Markups, SlicerMarkup};

fn bits3(x: f64, y: f64, z: f64) -> [u64; 3] {
    [x.to_bits(), y.to_bits(), z.to_bits()]
}

fn doc(system: &str, labels: &[&str]) -> SlicerMarkup {
    SlicerMarkup {
        markups: vec![Markups {
            coordinate_system: system.to_string(),
            control_points: labels
                .iter()
                .map(|l| ControlPoint { label: l.to_string(), position: bits3(1.0, 2.0, 3.0) })
                .collect(),
        }],
    }
}

#[test]
fn one_system_collects_every_point_in_order() {
    let docs = vec![doc("RAS", &["Tip", "Base"]), doc("RAS", &["Chin"])];
    let c = parse_slicer_markups(&docs).unwrap();
    assert_eq!(c.coord_1, "R");
    assert_eq!(c.coord_2, "A");
    assert_eq!(c.coord_3, "S");
    let names: Vec<&str> = c.coordinates.iter().map(|p| p.name.as_str()).collect();
    assert_eq!(names, ["Tip", "Base", "Chin"]);
    assert_eq!(f64::from_bits(c.coordinates[0].x), 1.0);
    assert_eq!(f64::from_bits(c.coordinates[0].y), 2.0);
    assert_eq!(f64::from_bits(c.coordinates[0].z), 3.0);
}

#[test]
fn the_raw_positions_are_kept_unconverted() {
    // The single-system mode splits the code into letters and keeps the
    // raw components; it applies no sign rule.
    let docs = vec![doc("LPS", &["Tip"])];
    let c = parse_slicer_markups(&docs).unwrap();
    assert_eq!((c.coord_1.as_str(), c.coord_2.as_str(), c.coord_3.as_str()), ("L", "P", "S"));
    assert_eq!(f64::from_bits(c.coordinates[0].x), 1.0);
}

#[test]
fn two_distinct_systems_are_rejected() {
    let docs = vec![doc("RAS", &["Tip"]), doc("LPS", &["Base"])];
    let e = parse_slicer_markups(&docs).unwrap_err();
    assert!(matches!(e, SlicerError::ConsistencyError(_)));
}

#[test]
fn a_code_of_wrong_length_is_rejected() {
    let docs = vec![doc("RASX", &["Tip"])];
    let e = parse_slicer_markups(&docs).unwrap_err();
    assert!(matches!(e, SlicerError::CoordinateSystemError(_)));
}

#[test]
fn no_markup_at_all_is_rejected() {
    let e = parse_slicer_markups(&Vec::new()).unwrap_err();
    assert!(matches!(e, SlicerError::ConsistencyError(_)));
    let empty_doc = vec![SlicerMarkup { markups: Vec::new() }];
    let e = parse_slicer_markups(&empty_doc).unwrap_err();
    assert!(matches!(e, SlicerError::ConsistencyError(_)));
}
