use slicer_toolbox::errors::SlicerError;
use slicer_toolbox::normalize::{convert_to_ras, normalize_point, Coord};
use slicer_toolbox::scalar::negate_bits;

fn bits3(x: f64, y: f64, z: f64) -> [u64; 3] {
    [x.to_bits(), y.to_bits(), z.to_bits()]
}

#[test]
fn ras_identity() {
    let c = normalize_point(&"RAS".to_string(), &bits3(1.0, 2.0, 3.0)).unwrap();
    assert_eq!(c, Coord { r: 1.0f64.to_bits(), a: 2.0f64.to_bits(), s: 3.0f64.to_bits() });
}

#[test]
fn lps_negates_r_and_a() {
    // L and P are the negative members of their pairs; S is positive, so
    // the third component keeps its sign.
    let c = normalize_point(&"LPS".to_string(), &bits3(1.0, 2.0, 3.0)).unwrap();
    assert_eq!(f64::from_bits(c.r), -1.0);
    assert_eq!(f64::from_bits(c.a), -2.0);
    assert_eq!(f64::from_bits(c.s), 3.0);
}

#[test]
fn lowercase_code_negates_the_same_way() {
    let c = normalize_point(&"lps".to_string(), &bits3(1.0, 2.0, 3.0)).unwrap();
    assert_eq!(f64::from_bits(c.r), -1.0);
    assert_eq!(f64::from_bits(c.a), -2.0);
    assert_eq!(f64::from_bits(c.s), 3.0);
}

#[test]
fn ipl_negates_every_component() {
    // I, P and L are all negative members: every component flips.
    let c = normalize_point(&"IPL".to_string(), &bits3(1.0, 2.0, 3.0)).unwrap();
    assert_eq!(f64::from_bits(c.s), -1.0);
    assert_eq!(f64::from_bits(c.a), -2.0);
    assert_eq!(f64::from_bits(c.r), -3.0);
}

#[test]
fn permuted_code_reorders() {
    // S at position 0, R at 1, A at 2: r comes from slot 1, a from 2, s from 0.
    let c = normalize_point(&"SRA".to_string(), &bits3(1.0, 2.0, 3.0)).unwrap();
    assert_eq!(f64::from_bits(c.r), 2.0);
    assert_eq!(f64::from_bits(c.a), 3.0);
    assert_eq!(f64::from_bits(c.s), 1.0);
}

#[test]
fn round_trip_recovers_raw_vector() {
    // Normalize under a permutation code, then invert the sign rule at each
    // code position: the raw vector comes back exactly.
    for code in ["RAS", "LPS", "SRA", "ipl", "ALS"] {
        let raw = bits3(1.5, -2.25, 3.0);
        let c = normalize_point(&code.to_string(), &raw).unwrap();
        let mut rebuilt = [0u64; 3];
        for (i, letter) in code.chars().enumerate() {
            rebuilt[i] = match letter.to_ascii_lowercase() {
                'r' => c.r,
                'l' => negate_bits(c.r),
                'a' => c.a,
                'p' => negate_bits(c.a),
                's' => c.s,
                'i' => negate_bits(c.s),
                _ => unreachable!(),
            };
        }
        assert_eq!(raw, rebuilt, "round trip failed for {code}");
    }
}

#[test]
fn missing_axis_letter_fails() {
    let e = normalize_point(&"XAS".to_string(), &bits3(1.0, 2.0, 3.0)).unwrap_err();
    assert!(matches!(e, SlicerError::CoordinateSystemError(_)));
}

#[test]
fn code_of_wrong_length_fails() {
    for code in ["", "RA", "RASL", "LR"] {
        let e = normalize_point(&code.to_string(), &bits3(1.0, 2.0, 3.0)).unwrap_err();
        assert!(matches!(e, SlicerError::CoordinateSystemError(_)), "{code}");
    }
}

#[test]
fn first_occurrence_wins_on_duplicate_letters() {
    // "RRS" has no A/P letter: the a-axis fails; r takes slot 0.
    let e = normalize_point(&"RRS".to_string(), &bits3(1.0, 2.0, 3.0)).unwrap_err();
    assert!(matches!(e, SlicerError::CoordinateSystemError(_)));
    // "RLS" resolves both r and l to the first match, slot 0.
    let chars: Vec<char> = "RLS".chars().collect();
    let v = convert_to_ras(&chars, 'r', 'l', &bits3(4.0, 5.0, 6.0)).unwrap();
    assert_eq!(f64::from_bits(v), 4.0);
}

#[test]
fn negation_flips_sign_bit_only() {
    assert_eq!(f64::from_bits(negate_bits(7.5f64.to_bits())), -7.5);
    assert_eq!(f64::from_bits(negate_bits(0.0f64.to_bits())), -0.0);
    assert!(f64::from_bits(negate_bits(f64::NAN.to_bits())).is_nan());
}
