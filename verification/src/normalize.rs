use vstd::prelude::*;

use crate::errors::SlicerError;
use crate::scalar::{lemma_negate_bits_involutive, negate_bits, spec_negate_bits};

verus! {

/// A canonical coordinate: the Right, Anterior and Superior components,
/// positive in those anatomical directions, each carried as a binary64 bit
/// pattern.
#[derive(Debug, Clone, Copy, PartialEq, Eq, Structural)]
pub struct Coord {
    pub r: u64,
    pub a: u64,
    pub s: u64,
}

/// The code point of `c` with an ASCII capital letter folded to lower case.
pub open spec fn ascii_lower(c: char) -> int {
    if 65 <= c as int && c as int <= 90 {
        c as int + 32
    } else {
        c as int
    }
}

/// ASCII-case-insensitive character equality.
pub open spec fn eq_ignore_case(a: char, b: char) -> bool {
    ascii_lower(a) == ascii_lower(b)
}

/// Whether `c` designates the axis pair of `pos` and `neg`.
pub open spec fn matches_pair(c: char, pos: char, neg: char) -> bool {
    eq_ignore_case(c, pos) || eq_ignore_case(c, neg)
}

pub fn chars_eq_ignore_case(a: char, b: char) -> (res: bool)
    ensures
        res == eq_ignore_case(a, b),
{
    let x: u32 = a as u32;
    let y: u32 = b as u32;
    let xl: u32 = if x >= 65 && x <= 90 {
        x + 32
    } else {
        x
    };
    let yl: u32 = if y >= 65 && y <= 90 {
        y + 32
    } else {
        y
    };
    xl == yl
}

/// The position of the first letter of `code`, at `i` or after, that
/// designates the pair of `pos` and `neg`.
pub open spec fn find_axis_from(code: Seq<char>, pos: char, neg: char, i: int) -> Option<int>
    decreases code.len() - i,
{
    if i < 0 || i >= code.len() {
        None
    } else if matches_pair(code[i], pos, neg) {
        Some(i)
    } else {
        find_axis_from(code, pos, neg, i + 1)
    }
}

/// The position of the first letter of `code` that designates the pair of
/// `pos` and `neg`: first occurrence wins, also when a letter repeats.
pub open spec fn find_axis(code: Seq<char>, pos: char, neg: char) -> Option<int> {
    find_axis_from(code, pos, neg, 0)
}

pub proof fn lemma_find_axis_from_props(code: Seq<char>, pos: char, neg: char, i: int)
    requires
        0 <= i <= code.len(),
    ensures
        match find_axis_from(code, pos, neg, i) {
            Some(k) => i <= k < code.len() && matches_pair(code[k], pos, neg) && (forall|j: int|
                i <= j < k ==> !matches_pair(#[trigger] code[j], pos, neg)),
            None => forall|j: int| i <= j < code.len() ==> !matches_pair(#[trigger] code[j], pos, neg),
        },
    decreases code.len() - i,
{
    if i < code.len() && !matches_pair(code[i], pos, neg) {
        lemma_find_axis_from_props(code, pos, neg, i + 1);
    }
}

/// The canonical value of one axis pair: the raw component at the position
/// of the first letter designating the pair, negated when that letter is the
/// negative member. `None` when no letter of the pair occurs in the code, or
/// when its position lies outside the raw vector.
pub open spec fn spec_axis_value(code: Seq<char>, pos: char, neg: char, positions: Seq<u64>) -> Option<
    u64,
> {
    match find_axis(code, pos, neg) {
        None => None,
        Some(i) => if i < positions.len() {
            if eq_ignore_case(code[i], neg) {
                Some(spec_negate_bits(positions[i]))
            } else {
                Some(positions[i])
            }
        } else {
            None
        },
    }
}

/// Scan the axis code for either letter of one anatomical pair and take the
/// raw component at the found position, negated when the negative letter
/// matched. Fails when neither letter occurs within the first three letters.
pub fn convert_to_ras(actual: &Vec<char>, positive: char, negative: char, positions: &[u64; 3]) -> (res:
    Result<u64, SlicerError>)
    ensures
        res is Ok <==> spec_axis_value(actual@, positive, negative, positions@) is Some,
        res is Ok ==> res->Ok_0 == spec_axis_value(actual@, positive, negative, positions@)->0,
        res is Err ==> res->Err_0 is CoordinateSystemError,
{
    let n = actual.len();
    let mut i: usize = 0;
    while i < n
        invariant
            n == actual@.len(),
            i <= n,
            find_axis(actual@, positive, negative) == find_axis_from(
                actual@,
                positive,
                negative,
                i as int,
            ),
        decreases n - i,
    {
        let c = actual[i];
        if chars_eq_ignore_case(c, positive) || chars_eq_ignore_case(c, negative) {
            proof {
                assert(find_axis(actual@, positive, negative) == Some(i as int));
            }
            if i < 3 {
                let raw = positions[i];
                if chars_eq_ignore_case(c, negative) {
                    return Ok(negate_bits(raw));
                } else {
                    return Ok(raw);
                }
            } else {
                return Err(
                    SlicerError::CoordinateSystemError(
                        "neither axis letter of a pair stands within the axis code".to_owned(),
                    ),
                );
            }
        }
        i = i + 1;
    }
    Err(
        SlicerError::CoordinateSystemError(
            "neither axis letter of a pair stands within the axis code".to_owned(),
        ),
    )
}

/// The characters of `s`, in order.
pub fn string_chars(s: &str) -> (res: Vec<char>)
    ensures
        res@ == s@,
{
    let n = s.unicode_len();
    let mut res: Vec<char> = Vec::new();
    let mut i: usize = 0;
    while i < n
        invariant
            n == s@.len(),
            i <= n,
            res@ == s@.subrange(0, i as int),
        decreases n - i,
    {
        let c = s.get_char(i);
        res.push(c);
        proof {
            assert(res@ =~= s@.subrange(0, i as int + 1));
        }
        i = i + 1;
    }
    proof {
        assert(res@ =~= s@);
    }
    res
}

/// The canonical coordinate of one raw position under an axis code: `None`
/// when the code is not exactly three characters or some pair has no letter
/// in it.
pub open spec fn spec_normalize_point(code: Seq<char>, positions: Seq<u64>) -> Option<Coord> {
    if code.len() != 3 {
        None
    } else {
        let vr = spec_axis_value(code, 'r', 'l', positions);
        let va = spec_axis_value(code, 'a', 'p', positions);
        let vs = spec_axis_value(code, 's', 'i', positions);
        if vr is Some && va is Some && vs is Some {
            Some(Coord { r: vr->0, a: va->0, s: vs->0 })
        } else {
            None
        }
    }
}

/// An axis code that draws one letter from each anatomical pair, one per
/// position, in any order and case.
pub open spec fn is_permutation_code(code: Seq<char>) -> bool {
    &&& code.len() == 3
    &&& exists|i: int| 0 <= i < 3 && matches_pair(#[trigger] code[i], 'r', 'l')
    &&& exists|i: int| 0 <= i < 3 && matches_pair(#[trigger] code[i], 'a', 'p')
    &&& exists|i: int| 0 <= i < 3 && matches_pair(#[trigger] code[i], 's', 'i')
}

/// The raw component that a position marked `letter` carried, recovered
/// from the canonical coordinate by inverting the sign rule.
pub open spec fn spec_denormalize_at(letter: char, c: Coord) -> u64 {
    if eq_ignore_case(letter, 'r') {
        c.r
    } else if eq_ignore_case(letter, 'l') {
        spec_negate_bits(c.r)
    } else if eq_ignore_case(letter, 'a') {
        c.a
    } else if eq_ignore_case(letter, 'p') {
        spec_negate_bits(c.a)
    } else if eq_ignore_case(letter, 's') {
        c.s
    } else if eq_ignore_case(letter, 'i') {
        spec_negate_bits(c.s)
    } else {
        0
    }
}

/// The raw vector recovered from a canonical coordinate under an axis code.
pub open spec fn spec_denormalize(code: Seq<char>, c: Coord) -> Seq<u64> {
    Seq::new(code.len(), |j: int| spec_denormalize_at(code[j], c))
}

/// For a permutation axis code, normalization is a bijection: the raw
/// vector is recovered from the canonical coordinate by inverting the sign
/// rule at each position of the code.
pub proof fn lemma_normalization_bijective(code: Seq<char>, positions: Seq<u64>)
    requires
        is_permutation_code(code),
        positions.len() == 3,
    ensures
        spec_normalize_point(code, positions) is Some,
        spec_denormalize(code, spec_normalize_point(code, positions)->0) == positions,
{
    lemma_find_axis_from_props(code, 'r', 'l', 0);
    lemma_find_axis_from_props(code, 'a', 'p', 0);
    lemma_find_axis_from_props(code, 's', 'i', 0);
    let fr = find_axis(code, 'r', 'l');
    let fa = find_axis(code, 'a', 'p');
    let fs = find_axis(code, 's', 'i');
    assert(fr is Some && fa is Some && fs is Some);
    let ir = fr->0;
    let ia = fa->0;
    let is_ = fs->0;
    assert(ir != ia && ir != is_ && ia != is_);
    let c = spec_normalize_point(code, positions)->0;
    assert forall|j: int| 0 <= j < 3 implies spec_denormalize(code, c)[j] == positions[j] by {
        if j == ir {
            if eq_ignore_case(code[ir], 'l') {
                lemma_negate_bits_involutive(positions[ir]);
            }
        } else if j == ia {
            if eq_ignore_case(code[ia], 'p') {
                lemma_negate_bits_involutive(positions[ia]);
            }
        } else {
            assert(j == is_);
            if eq_ignore_case(code[is_], 'i') {
                lemma_negate_bits_involutive(positions[is_]);
            }
        }
    }
    assert(spec_denormalize(code, c) =~= positions);
}

/// Convert one raw position into the canonical RAS convention under its
/// three-letter axis code.
pub fn normalize_point(coordinate_system: &String, positions: &[u64; 3]) -> (res: Result<
    Coord,
    SlicerError,
>)
    ensures
        res is Ok <==> spec_normalize_point(coordinate_system@, positions@) is Some,
        res is Ok ==> res->Ok_0 == spec_normalize_point(coordinate_system@, positions@)->0,
        res is Err ==> res->Err_0 is CoordinateSystemError,
{
    let chars = string_chars(coordinate_system.as_str());
    if chars.len() != 3 {
        return Err(
            SlicerError::CoordinateSystemError(
                "the axis code is not exactly three characters: ".to_owned().concat(
                    coordinate_system.as_str(),
                ),
            ),
        );
    }
    let vr = match convert_to_ras(&chars, 'r', 'l', positions) {
        Ok(v) => v,
        Err(_) => {
            return Err(axis_letter_error(coordinate_system));
        },
    };
    let va = match convert_to_ras(&chars, 'a', 'p', positions) {
        Ok(v) => v,
        Err(_) => {
            return Err(axis_letter_error(coordinate_system));
        },
    };
    let vs = match convert_to_ras(&chars, 's', 'i', positions) {
        Ok(v) => v,
        Err(_) => {
            return Err(axis_letter_error(coordinate_system));
        },
    };
    Ok(Coord { r: vr, a: va, s: vs })
}

fn axis_letter_error(coordinate_system: &String) -> (res: SlicerError)
    ensures
        res is CoordinateSystemError,
{
    SlicerError::CoordinateSystemError(
        "a required axis letter is absent from the axis code: ".to_owned().concat(
            coordinate_system.as_str(),
        ),
    )
}

} // verus!
