use slicer_toolbox::errors::SlicerError;
use slicer_toolbox::json::{parse_markup_document, JsonField, JsonValue};

fn obj(fields: Vec<(&str, JsonValue)>) -> JsonValue {
    JsonValue::Obj(
        fields
            .into_iter()
            .map(|(k, v)| JsonField { key: k.to_string(), value: v })
            .collect(),
    )
}

fn num(x: f64) -> JsonValue {
    JsonValue::Num(x.to_bits())
}

fn point(label: &str, x: f64, y: f64, z: f64) -> JsonValue {
    obj(vec![
        ("label", JsonValue::Str(label.to_string())),
        ("position", JsonValue::Arr(vec![num(x), num(y), num(z)])),
    ])
}

fn markup(system: &str, points: Vec<JsonValue>) -> JsonValue {
    obj(vec![
        ("coordinateSystem", JsonValue::Str(system.to_string())),
        ("controlPoints", JsonValue::Arr(points)),
    ])
}

#[test]
fn a_well_formed_document_decodes() {
    let v = obj(vec![(
        "markups",
        JsonValue::Arr(vec![markup("LPS", vec![point("Tip", 1.0, 2.0, 3.0)])]),
    )]);
    let d = parse_markup_document(&v).unwrap();
    assert_eq!(d.markups.len(), 1);
    assert_eq!(d.markups[0].coordinate_system, "LPS");
    assert_eq!(d.markups[0].control_points.len(), 1);
    assert_eq!(d.markups[0].control_points[0].label, "Tip");
    assert_eq!(d.markups[0].control_points[0].position, [
        1.0f64.to_bits(),
        2.0f64.to_bits(),
        3.0f64.to_bits(),
    ]);
}

#[test]
fn unknown_fields_are_ignored() {
    let v = obj(vec![
        ("markups", JsonValue::Arr(vec![])),
        ("schemaVersion", JsonValue::Str("1".to_string())),
    ]);
    let d = parse_markup_document(&v).unwrap();
    assert!(d.markups.is_empty());
}

#[test]
fn a_missing_required_field_is_a_format_error() {
    let no_markups = obj(vec![("other", JsonValue::Null)]);
    assert!(matches!(
        parse_markup_document(&no_markups).unwrap_err(),
        SlicerError::FormatError(_)
    ));
    let no_label = obj(vec![(
        "markups",
        JsonValue::Arr(vec![markup(
            "RAS",
            vec![obj(vec![(
                "position",
                JsonValue::Arr(vec![num(1.0), num(2.0), num(3.0)]),
            )])],
        )]),
    )]);
    assert!(matches!(
        parse_markup_document(&no_label).unwrap_err(),
        SlicerError::FormatError(_)
    ));
}

#[test]
fn a_mistyped_field_is_a_format_error() {
    let bad = obj(vec![("markups", JsonValue::Str("not a list".to_string()))]);
    assert!(matches!(parse_markup_document(&bad).unwrap_err(), SlicerError::FormatError(_)));
    let short_position = obj(vec![(
        "markups",
        JsonValue::Arr(vec![markup(
            "RAS",
            vec![obj(vec![
                ("label", JsonValue::Str("Tip".to_string())),
                ("position", JsonValue::Arr(vec![num(1.0), num(2.0)])),
            ])],
        )]),
    )]);
    assert!(matches!(
        parse_markup_document(&short_position).unwrap_err(),
        SlicerError::FormatError(_)
    ));
}

#[test]
fn field_name_matching_is_exact_camel_case() {
    let wrong_case = obj(vec![(
        "markups",
        JsonValue::Arr(vec![obj(vec![
            ("coordinatesystem", JsonValue::Str("RAS".to_string())),
            ("controlPoints", JsonValue::Arr(vec![])),
        ])]),
    )]);
    assert!(matches!(
        parse_markup_document(&wrong_case).unwrap_err(),
        SlicerError::FormatError(_)
    ));
}
