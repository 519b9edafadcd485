use slicer_toolbox::aggregate::{collect_file_coords, distinct_labels};
use slicer_toolbox::collate::{sort_files, sort_strings, NaturalCollator};
use slicer_toolbox::json::{parse_markup_document, JsonField, JsonValue};
use slicer_toolbox::report::{create_main_data, create_statistics, Cell};

fn obj(fields: Vec<(&str, JsonValue)>) -> JsonValue {
    JsonValue::Obj(
        fields
            .into_iter()
            .map(|(k, v)| JsonField { key: k.to_string(), value: v })
            .collect(),
    )
}

fn num(x: f64) -> JsonValue {
    JsonValue::Num(x.to_bits())
}

fn point(label: &str, x: f64, y: f64, z: f64) -> JsonValue {
    obj(vec![
        ("label", JsonValue::Str(label.to_string())),
        ("position", JsonValue::Arr(vec![num(x), num(y), num(z)])),
    ])
}

fn markup(system: &str, points: Vec<JsonValue>) -> JsonValue {
    obj(vec![
        ("coordinateSystem", JsonValue::Str(system.to_string())),
        ("controlPoints", JsonValue::Arr(points)),
    ])
}

fn value(c: &Cell) -> f64 {
    match c {
        Cell::Num(b) => f64::from_bits(*b),
        other => panic!("expected a numeric cell, got {other:?}"),
    }
}

#[test]
fn two_files_through_the_whole_pipeline() {
    // File A: landmark Tip at RAS-coded (1, 2, 3).
    let doc_a = obj(vec![(
        "markups",
        JsonValue::Arr(vec![markup("RAS", vec![point("Tip", 1.0, 2.0, 3.0)])]),
    )]);
    // File B: Tip at LPS-coded (1, 2, 3) and Base at RAS-coded (0, 0, 0).
    let doc_b = obj(vec![(
        "markups",
        JsonValue::Arr(vec![
            markup("LPS", vec![point("Tip", 1.0, 2.0, 3.0)]),
            markup("RAS", vec![point("Base", 0.0, 0.0, 0.0)]),
        ]),
    )]);

    let parsed_a = vec![parse_markup_document(&doc_a).unwrap()];
    let parsed_b = vec![parse_markup_document(&doc_b).unwrap()];
    let mut files = vec![
        collect_file_coords("B.mrb".to_string(), &parsed_b).unwrap(),
        collect_file_coords("A.mrb".to_string(), &parsed_a).unwrap(),
    ];

    let collator = NaturalCollator::new().unwrap();
    sort_files(&collator, &mut files);
    assert_eq!(files[0].file_name, "A.mrb");
    assert_eq!(files[1].file_name, "B.mrb");

    let a_tip = files[0].get(&"Tip".to_string()).unwrap();
    assert_eq!(
        (f64::from_bits(a_tip.r), f64::from_bits(a_tip.a), f64::from_bits(a_tip.s)),
        (1.0, 2.0, 3.0)
    );
    let b_tip = files[1].get(&"Tip".to_string()).unwrap();
    // L and P negate their components; S keeps the third one.
    assert_eq!(
        (f64::from_bits(b_tip.r), f64::from_bits(b_tip.a), f64::from_bits(b_tip.s)),
        (-1.0, -2.0, 3.0)
    );
    let b_base = files[1].get(&"Base".to_string()).unwrap();
    assert_eq!(
        (f64::from_bits(b_base.r), f64::from_bits(b_base.a), f64::from_bits(b_base.s)),
        (0.0, 0.0, 0.0)
    );

    let mut landmarks = distinct_labels(&files);
    sort_strings(&collator, &mut landmarks);
    assert_eq!(landmarks, vec!["Base".to_string(), "Tip".to_string()]);

    // Main-data table: two landmark rows of 2 files x 4 cells each.
    let main = create_main_data(&files, &landmarks);
    assert_eq!(main.len(), 3);
    for row in &main {
        assert_eq!(row.len(), 8);
    }
    assert_eq!(main[0][0], Cell::Text("A.mrb".to_string()));
    assert_eq!(main[0][4], Cell::Text("B.mrb".to_string()));
    // Base is missing from file A.
    assert_eq!(main[1][0], Cell::Text("Base".to_string()));
    assert_eq!(main[1][1], Cell::Empty);
    assert_eq!(value(&main[1][5]), 0.0);
    // Tip row: file A then file B.
    assert_eq!(value(&main[2][1]), 1.0);
    assert_eq!(value(&main[2][5]), -1.0);
    assert_eq!(value(&main[2][6]), -2.0);
    assert_eq!(value(&main[2][7]), 3.0);

    // Statistics table: two file rows of 1 + 2 x 2 cells.
    let stats = create_statistics(&files, &landmarks);
    assert_eq!(stats.len(), 3);
    for row in &stats {
        assert_eq!(row.len(), 5);
    }
    assert_eq!(stats[0][0], Cell::Text("Samples".to_string()));
    assert_eq!(stats[0][3], Cell::Text("Tip__A".to_string()));
    assert_eq!(stats[1][0], Cell::Text("A.mrb".to_string()));
    assert_eq!(stats[1][1], Cell::Empty);
    assert_eq!(value(&stats[1][3]), 2.0);
    assert_eq!(value(&stats[2][3]), -2.0);
    assert_eq!(value(&stats[2][4]), 3.0);
}
