use vstd::prelude::*;

use crate::errors::SlicerError;

verus! {

/// One recorded point: a free-text label and three raw components, in the
/// axis order of the owning coordinate system, each a binary64 bit pattern.
#[derive(Debug, Clone)]
pub struct ControlPoint {
    pub label: String,
    pub position: [u64; 3],
}

/// One markup: a coordinate-system code and its recorded points.
#[derive(Debug, Clone)]
pub struct Markups {
    pub coordinate_system: String,
    pub control_points: Vec<ControlPoint>,
}

/// One parsed document: an ordered list of markups.
#[derive(Debug, Clone)]
pub struct SlicerMarkup {
    pub markups: Vec<Markups>,
}

/// One named raw point, as collected by the single-system mode.
#[derive(Debug, Clone)]
pub struct Coordinate {
    pub name: String,
    pub x: u64,
    pub y: u64,
    pub z: u64,
}

/// The single-system collection: the three axis letters, one per column,
/// and every collected point in document order.
#[derive(Debug, Clone)]
pub struct Coordinates {
    pub coord_1: String,
    pub coord_2: String,
    pub coord_3: String,
    pub coordinates: Vec<Coordinate>,
}

/// All markups of a document list, flattened in order.
pub open spec fn all_markups(docs: Seq<SlicerMarkup>) -> Seq<Markups>
    decreases docs.len(),
{
    if docs.len() == 0 {
        Seq::empty()
    } else {
        all_markups(docs.drop_last()) + docs.last().markups@
    }
}

/// All control points of a markup list, flattened in order.
pub open spec fn all_points(ms: Seq<Markups>) -> Seq<ControlPoint>
    decreases ms.len(),
{
    if ms.len() == 0 {
        Seq::empty()
    } else {
        all_points(ms.drop_last()) + ms.last().control_points@
    }
}

/// When the single-system mode accepts a markup list: at least one markup,
/// every code exactly three characters, and every code the same.
pub open spec fn markups_ok(ms: Seq<Markups>) -> bool {
    &&& ms.len() > 0
    &&& forall|i: int|
        0 <= i < ms.len() ==> (#[trigger] ms[i].coordinate_system@).len() == 3
    &&& forall|i: int|
        0 <= i < ms.len() ==> #[trigger] ms[i].coordinate_system@ == ms[0].coordinate_system@
}

/// The collected form of one control point: label and raw components,
/// untouched.
pub open spec fn coordinate_matches(c: Coordinate, p: ControlPoint) -> bool {
    &&& c.name@ == p.label@
    &&& c.x == p.position@[0]
    &&& c.y == p.position@[1]
    &&& c.z == p.position@[2]
}

pub proof fn lemma_all_markups_prefix(docs: Seq<SlicerMarkup>, t: int)
    requires
        0 <= t <= docs.len(),
    ensures
        all_markups(docs.take(t)).len() <= all_markups(docs).len(),
        forall|i: int|
            0 <= i < all_markups(docs.take(t)).len() ==> #[trigger] all_markups(docs.take(t))[i]
                == all_markups(docs)[i],
    decreases docs.len() - t,
{
    if t == docs.len() {
        assert(docs.take(t) =~= docs);
    } else {
        lemma_all_markups_prefix(docs, t + 1);
        assert(docs.take(t + 1).drop_last() =~= docs.take(t));
        assert(docs.take(t + 1).last() == docs[t]);
        assert(all_markups(docs.take(t + 1)) == all_markups(docs.take(t)) + docs[t].markups@);
        assert forall|i: int| 0 <= i < all_markups(docs.take(t)).len() implies #[trigger] all_markups(
            docs.take(t),
        )[i] == all_markups(docs)[i] by {
            assert(all_markups(docs.take(t))[i] == all_markups(docs.take(t + 1))[i]);
        }
    }
}

/// Gather every control point of every markup, in order, under one single
/// coordinate system. Fails when a code is not three characters, when two
/// distinct codes occur, or when no markup is present at all.
pub fn parse_slicer_markups(docs: &Vec<SlicerMarkup>) -> (res: Result<Coordinates, SlicerError>)
    ensures
        res is Ok <==> markups_ok(all_markups(docs@)),
        res is Ok ==> ({
            let ms = all_markups(docs@);
            let pts = all_points(ms);
            let c = res->Ok_0;
            &&& c.coord_1@ == seq![ms[0].coordinate_system@[0]]
            &&& c.coord_2@ == seq![ms[0].coordinate_system@[1]]
            &&& c.coord_3@ == seq![ms[0].coordinate_system@[2]]
            &&& c.coordinates@.len() == pts.len()
            &&& forall|i: int|
                0 <= i < pts.len() ==> coordinate_matches(#[trigger] c.coordinates@[i], pts[i])
        }),
        res is Err ==> (res->Err_0 is CoordinateSystemError || res->Err_0 is ConsistencyError),
        res is Err && res->Err_0 is CoordinateSystemError ==> exists|i: int|
            0 <= i < all_markups(docs@).len() && (#[trigger] all_markups(
                docs@,
            )[i]).coordinate_system@.len() != 3,
{
    let mut coordinates: Vec<Coordinate> = Vec::new();
    let mut system: Option<String> = None;
    let mut d: usize = 0;
    while d < docs.len()
        invariant
            d <= docs.len(),
            ({
                let ms = all_markups(docs@.take(d as int));
                &&& (system is Some <==> ms.len() > 0)
                &&& system is Some ==> system->0@ == ms[0].coordinate_system@ && system->0@.len()
                    == 3
                &&& forall|i: int|
                    0 <= i < ms.len() ==> (#[trigger] ms[i].coordinate_system@).len() == 3
                &&& forall|i: int|
                    0 <= i < ms.len() ==> #[trigger] ms[i].coordinate_system@
                        == ms[0].coordinate_system@
                &&& coordinates@.len() == all_points(ms).len()
                &&& forall|i: int|
                    0 <= i < all_points(ms).len() ==> coordinate_matches(
                        #[trigger] coordinates@[i],
                        all_points(ms)[i],
                    )
            }),
        decreases docs.len() - d,
    {
        let ghost ms0 = all_markups(docs@.take(d as int));
        let doc = &docs[d];
        let mut k: usize = 0;
        while k < doc.markups.len()
            invariant
                d < docs.len(),
                doc == &docs@[d as int],
                ms0 == all_markups(docs@.take(d as int)),
                k <= doc.markups.len(),
                ({
                    let ms = ms0 + doc.markups@.take(k as int);
                    &&& (system is Some <==> ms.len() > 0)
                    &&& system is Some ==> system->0@ == ms[0].coordinate_system@
                        && system->0@.len() == 3
                    &&& forall|i: int|
                        0 <= i < ms.len() ==> (#[trigger] ms[i].coordinate_system@).len() == 3
                    &&& forall|i: int|
                        0 <= i < ms.len() ==> #[trigger] ms[i].coordinate_system@
                            == ms[0].coordinate_system@
                    &&& coordinates@.len() == all_points(ms).len()
                    &&& forall|i: int|
                        0 <= i < all_points(ms).len() ==> coordinate_matches(
                            #[trigger] coordinates@[i],
                            all_points(ms)[i],
                        )
                }),
            decreases doc.markups.len() - k,
        {
            let ghost ms = ms0 + doc.markups@.take(k as int);
            let m = &doc.markups[k];
            proof {
                lemma_all_markups_prefix(docs@, d as int + 1);
                assert(docs@.take(d as int + 1).drop_last() =~= docs@.take(d as int));
                assert(docs@.take(d as int + 1).last() == docs@[d as int]);
                assert(all_markups(docs@.take(d as int + 1)) == ms0 + doc.markups@);
                assert((ms0 + doc.markups@)[ms.len() as int] == doc.markups@[k as int]);
                assert(all_markups(docs@)[ms.len() as int] == doc.markups@[k as int]);
            }
            if m.coordinate_system.as_str().unicode_len() != 3 {
                return Err(
                    SlicerError::CoordinateSystemError(
                        "invalid coordinate system: should be three characters".to_owned(),
                    ),
                );
            }
            match &system {
                None => {
                    system = Some(m.coordinate_system.clone());
                },
                Some(s) => {
                    if !(s.eq(&m.coordinate_system)) {
                        proof {
                            assert(ms.len() > 0);
                            if ms0.len() > 0 {
                                assert(ms[0] == ms0[0]);
                                assert(all_markups(docs@.take(d as int + 1))[0] == ms0[0]);
                            } else {
                                assert(ms[0] == doc.markups@.take(k as int)[0]);
                                assert(doc.markups@.take(k as int)[0] == doc.markups@[0]);
                                assert(all_markups(docs@.take(d as int + 1))[0]
                                    == doc.markups@[0]);
                            }
                            assert(all_markups(docs@)[0] == ms[0]);
                            assert(all_markups(docs@)[ms.len() as int].coordinate_system@
                                != all_markups(docs@)[0].coordinate_system@);
                        }
                        return Err(
                            SlicerError::ConsistencyError(
                                "multiple different coordinate systems found".to_owned(),
                            ),
                        );
                    }
                },
            }
            let mut p: usize = 0;
            while p < m.control_points.len()
                invariant
                    d < docs.len(),
                    doc == &docs@[d as int],
                    k < doc.markups.len(),
                    m == &doc.markups@[k as int],
                    p <= m.control_points.len(),
                    ms == ms0 + doc.markups@.take(k as int),
                    ({
                        let pts = all_points(ms) + m.control_points@.take(p as int);
                        &&& coordinates@.len() == pts.len()
                        &&& forall|i: int|
                            0 <= i < pts.len() ==> coordinate_matches(
                                #[trigger] coordinates@[i],
                                pts[i],
                            )
                    }),
                decreases m.control_points.len() - p,
            {
                let cp = &m.control_points[p];
                coordinates.push(
                    Coordinate {
                        name: cp.label.clone(),
                        x: cp.position[0],
                        y: cp.position[1],
                        z: cp.position[2],
                    },
                );
                proof {
                    assert(m.control_points@.take(p as int + 1) =~= m.control_points@.take(
                        p as int,
                    ).push(m.control_points@[p as int]));
                    assert(all_points(ms) + m.control_points@.take(p as int + 1) =~= (all_points(
                        ms,
                    ) + m.control_points@.take(p as int)).push(m.control_points@[p as int]));
                }
                p = p + 1;
            }
            proof {
                assert(m.control_points@.take(m.control_points@.len() as int)
                    =~= m.control_points@);
                let msk1 = ms0 + doc.markups@.take(k as int + 1);
                assert(msk1.drop_last() =~= ms);
                assert(msk1.last() == doc.markups@[k as int]);
                assert(all_points(msk1) == all_points(ms) + m.control_points@);
                assert(doc.markups@.take(k as int + 1) =~= doc.markups@.take(k as int).push(
                    doc.markups@[k as int],
                ));
                assert(msk1 =~= ms.push(doc.markups@[k as int]));
            }
            k = k + 1;
        }
        proof {
            assert(doc.markups@.take(doc.markups@.len() as int) =~= doc.markups@);
            assert(docs@.take(d as int + 1).drop_last() =~= docs@.take(d as int));
            assert(docs@.take(d as int + 1).last() == docs@[d as int]);
            assert(all_markups(docs@.take(d as int + 1)) == ms0 + doc.markups@);
        }
        d = d + 1;
    }
    proof {
        assert(docs@.take(docs@.len() as int) =~= docs@);
    }
    match system {
        None => Err(SlicerError::ConsistencyError("no coordinate system found".to_owned())),
        Some(s) => {
            let c1 = s.as_str().substring_char(0, 1).to_owned();
            let c2 = s.as_str().substring_char(1, 2).to_owned();
            let c3 = s.as_str().substring_char(2, 3).to_owned();
            proof {
                let sys0 = all_markups(docs@)[0].coordinate_system@;
                assert(sys0.subrange(0, 1) =~= seq![sys0[0]]);
                assert(sys0.subrange(1, 2) =~= seq![sys0[1]]);
                assert(sys0.subrange(2, 3) =~= seq![sys0[2]]);
            }
            Ok(Coordinates { coord_1: c1, coord_2: c2, coord_3: c3, coordinates })
        },
    }
}

} // verus!
