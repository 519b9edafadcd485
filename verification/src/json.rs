use vstd::prelude::*;

use crate::errors::SlicerError;
use crate::markup::{ControlPoint, Markups, SlicerMarkup};

verus! {

/// A structured-data value, already decoded from text: numbers carried as
/// binary64 bit patterns, objects as ordered key-value lists.
#[derive(Debug)]
pub enum JsonValue {
    Null,
    Bool(bool),
    Num(u64),
    Str(String),
    Arr(Vec<JsonValue>),
    Obj(Vec<JsonField>),
}

/// One key-value pair of an object value.
#[derive(Debug)]
pub struct JsonField {
    pub key: String,
    pub value: JsonValue,
}

/// The value under the first occurrence of `key`.
pub open spec fn lookup(obj: Seq<JsonField>, key: Seq<char>) -> Option<JsonValue>
    decreases obj.len(),
{
    if obj.len() == 0 {
        None
    } else if obj.first().key@ == key {
        Some(obj.first().value)
    } else {
        lookup(obj.drop_first(), key)
    }
}

/// The field of an object value.
pub open spec fn field(v: JsonValue, key: Seq<char>) -> Option<JsonValue> {
    lookup(v->Obj_0@, key)
}

/// Whether the characters of `a` equal those of `b`.
pub fn str_eq(a: &str, b: &str) -> (res: bool)
    ensures
        res == (a@ == b@),
{
    let n = a.unicode_len();
    if n != b.unicode_len() {
        return false;
    }
    let mut i: usize = 0;
    while i < n
        invariant
            n == a@.len(),
            n == b@.len(),
            i <= n,
            forall|j: int| 0 <= j < i ==> a@[j] == b@[j],
        decreases n - i,
    {
        if a.get_char(i) != b.get_char(i) {
            return false;
        }
        i = i + 1;
    }
    proof {
        assert(a@ =~= b@);
    }
    true
}

/// The value under the first occurrence of `key`, if any.
pub fn get_field<'a>(obj: &'a Vec<JsonField>, key: &str) -> (res: Option<
    &'a JsonValue,
>)
    ensures
        res is Some <==> lookup(obj@, key@) is Some,
        res is Some ==> *res->0 == lookup(obj@, key@)->0,
{
    let mut i: usize = 0;
    proof {
        assert(obj@.skip(0) =~= obj@);
    }
    while i < obj.len()
        invariant
            i <= obj@.len(),
            lookup(obj@, key@) == lookup(obj@.skip(i as int), key@),
        decreases obj@.len() - i,
    {
        proof {
            assert(obj@.skip(i as int).first() == obj@[i as int]);
            assert(obj@.skip(i as int).drop_first() =~= obj@.skip(i as int + 1));
        }
        if str_eq(obj[i].key.as_str(), key) {
            return Some(&obj[i].value);
        }
        i = i + 1;
    }
    proof {
        assert(obj@.skip(obj@.len() as int) =~= Seq::<JsonField>::empty());
    }
    None
}

/// A three-element numeric array.
pub open spec fn is_num3(a: Seq<JsonValue>) -> bool {
    &&& a.len() == 3
    &&& a[0] is Num
    &&& a[1] is Num
    &&& a[2] is Num
}

/// A control-point object of the input schema: a text `label` and a
/// three-number `position`.
pub open spec fn point_json_ok(v: JsonValue) -> bool {
    &&& v is Obj
    &&& field(v, "label"@) matches Some(l) && l is Str
    &&& field(v, "position"@) matches Some(p) && p is Arr && is_num3(p->Arr_0@)
}

/// What the decoded control point holds of its source value.
pub open spec fn point_matches(v: JsonValue, p: ControlPoint) -> bool {
    &&& point_json_ok(v)
    &&& p.label@ == field(v, "label"@)->0->Str_0@
    &&& p.position@[0] == field(v, "position"@)->0->Arr_0@[0]->Num_0
    &&& p.position@[1] == field(v, "position"@)->0->Arr_0@[1]->Num_0
    &&& p.position@[2] == field(v, "position"@)->0->Arr_0@[2]->Num_0
}

/// The markup list of a markup object.
pub open spec fn markup_json_pts(v: JsonValue) -> Seq<JsonValue> {
    field(v, "controlPoints"@)->0->Arr_0@
}

/// A markup object of the input schema: a text `coordinateSystem` and a
/// list of control-point objects under `controlPoints`.
pub open spec fn markup_json_ok(v: JsonValue) -> bool {
    &&& v is Obj
    &&& field(v, "coordinateSystem"@) matches Some(c) && c is Str
    &&& field(v, "controlPoints"@) matches Some(ps) && ps is Arr
    &&& forall|i: int|
        0 <= i < markup_json_pts(v).len() ==> point_json_ok(#[trigger] markup_json_pts(v)[i])
}

/// What the decoded markup holds of its source value.
pub open spec fn markup_matches(v: JsonValue, m: Markups) -> bool {
    &&& markup_json_ok(v)
    &&& m.coordinate_system@ == field(v, "coordinateSystem"@)->0->Str_0@
    &&& m.control_points@.len() == markup_json_pts(v).len()
    &&& forall|j: int|
        0 <= j < markup_json_pts(v).len() ==> point_matches(
            markup_json_pts(v)[j],
            #[trigger] m.control_points@[j],
        )
}

/// The markup list of a document object.
pub open spec fn doc_json_markups(v: JsonValue) -> Seq<JsonValue> {
    field(v, "markups"@)->0->Arr_0@
}

/// A document of the input schema: an object with a list of markup
/// objects under `markups`.
pub open spec fn doc_json_ok(v: JsonValue) -> bool {
    &&& v is Obj
    &&& field(v, "markups"@) matches Some(ms) && ms is Arr
    &&& forall|i: int|
        0 <= i < doc_json_markups(v).len() ==> markup_json_ok(#[trigger] doc_json_markups(v)[i])
}

/// What the decoded document holds of its source value.
pub open spec fn doc_matches(v: JsonValue, d: SlicerMarkup) -> bool {
    &&& doc_json_ok(v)
    &&& d.markups@.len() == doc_json_markups(v).len()
    &&& forall|i: int|
        0 <= i < doc_json_markups(v).len() ==> markup_matches(
            doc_json_markups(v)[i],
            #[trigger] d.markups@[i],
        )
}

fn format_error() -> (res: SlicerError)
    ensures
        res is FormatError,
{
    SlicerError::FormatError("the document does not match the markup schema".to_owned())
}

/// Decode one control-point object, rejecting any schema mismatch.
fn parse_control_point(v: &JsonValue) -> (res: Result<ControlPoint, SlicerError>)
    ensures
        res is Ok <==> point_json_ok(*v),
        res is Ok ==> point_matches(*v, res->Ok_0),
        res is Err ==> res->Err_0 is FormatError,
{
    match v {
        JsonValue::Obj(o) => {
            let label = match get_field(o, "label") {
                Some(JsonValue::Str(s)) => s.clone(),
                _ => {
                    return Err(format_error());
                },
            };
            match get_field(o, "position") {
                Some(JsonValue::Arr(a)) => {
                    if a.len() != 3 {
                        return Err(format_error());
                    }
                    let b0 = match &a[0] {
                        JsonValue::Num(b) => *b,
                        _ => {
                            return Err(format_error());
                        },
                    };
                    let b1 = match &a[1] {
                        JsonValue::Num(b) => *b,
                        _ => {
                            return Err(format_error());
                        },
                    };
                    let b2 = match &a[2] {
                        JsonValue::Num(b) => *b,
                        _ => {
                            return Err(format_error());
                        },
                    };
                    Ok(ControlPoint { label, position: [b0, b1, b2] })
                },
                _ => Err(format_error()),
            }
        },
        _ => Err(format_error()),
    }
}

/// Decode one markup object, rejecting any schema mismatch.
fn parse_markup(v: &JsonValue) -> (res: Result<Markups, SlicerError>)
    ensures
        res is Ok <==> markup_json_ok(*v),
        res is Ok ==> markup_matches(*v, res->Ok_0),
        res is Err ==> res->Err_0 is FormatError,
{
    match v {
        JsonValue::Obj(o) => {
            let coordinate_system = match get_field(o, "coordinateSystem") {
                Some(JsonValue::Str(s)) => s.clone(),
                _ => {
                    return Err(format_error());
                },
            };
            match get_field(o, "controlPoints") {
                Some(JsonValue::Arr(a)) => {
                    let mut control_points: Vec<ControlPoint> = Vec::new();
                    let mut i: usize = 0;
                    while i < a.len()
                        invariant
                            i <= a@.len(),
                            markup_json_pts(*v) == a@,
                            v is Obj,
                            field(*v, "coordinateSystem"@) matches Some(c) && c is Str,
                            field(*v, "controlPoints"@) matches Some(ps) && ps is Arr,
                            coordinate_system@ == field(*v, "coordinateSystem"@)->0->Str_0@,
                            control_points@.len() == i,
                            forall|j: int| 0 <= j < i ==> point_json_ok(#[trigger] a@[j]),
                            forall|j: int|
                                0 <= j < i ==> point_matches(
                                    a@[j],
                                    #[trigger] control_points@[j],
                                ),
                        decreases a@.len() - i,
                    {
                        match parse_control_point(&a[i]) {
                            Ok(p) => {
                                control_points.push(p);
                            },
                            Err(e) => {
                                return Err(e);
                            },
                        }
                        i = i + 1;
                    }
                    Ok(Markups { coordinate_system, control_points })
                },
                _ => Err(format_error()),
            }
        },
        _ => Err(format_error()),
    }
}

/// Decode one markup document, rejecting any schema mismatch: the
/// explicit schema-validating step between parsed structured data and the
/// typed document.
pub fn parse_markup_document(v: &JsonValue) -> (res: Result<SlicerMarkup, SlicerError>)
    ensures
        res is Ok <==> doc_json_ok(*v),
        res is Ok ==> doc_matches(*v, res->Ok_0),
        res is Err ==> res->Err_0 is FormatError,
{
    match v {
        JsonValue::Obj(o) => {
            match get_field(o, "markups") {
                Some(JsonValue::Arr(a)) => {
                    let mut markups: Vec<Markups> = Vec::new();
                    let mut i: usize = 0;
                    while i < a.len()
                        invariant
                            i <= a@.len(),
                            doc_json_markups(*v) == a@,
                            v is Obj,
                            field(*v, "markups"@) matches Some(ms) && ms is Arr,
                            markups@.len() == i,
                            forall|j: int| 0 <= j < i ==> markup_json_ok(#[trigger] a@[j]),
                            forall|j: int|
                                0 <= j < i ==> markup_matches(a@[j], #[trigger] markups@[j]),
                        decreases a@.len() - i,
                    {
                        match parse_markup(&a[i]) {
                            Ok(m) => {
                                markups.push(m);
                            },
                            Err(e) => {
                                return Err(e);
                            },
                        }
                        i = i + 1;
                    }
                    Ok(SlicerMarkup { markups })
                },
                _ => Err(format_error()),
            }
        },
        _ => Err(format_error()),
    }
}

} // verus!
