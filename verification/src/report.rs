use vstd::prelude::*;

use crate::aggregate::FileCoordinateSet;

verus! {

/// One table cell: a text cell, a numeric cell carried as a binary64 bit
/// pattern to be rendered in the number's default decimal form at the
/// output boundary, or the filler for an absent landmark.
#[derive(Debug, Clone, PartialEq)]
pub enum Cell {
    Text(String),
    Num(u64),
    Empty,
}

/// The four header cells of one file group of the main-data table: the
/// file name and the three coordinate-axis headers.
pub open spec fn main_group_ok(header: Seq<Cell>, files: Seq<FileCoordinateSet>, f: int) -> bool {
    &&& header[4 * f] matches Cell::Text(t) && t@ == files[f].file_name@
    &&& header[4 * f + 1] matches Cell::Text(t) && t@ == "R"@
    &&& header[4 * f + 2] matches Cell::Text(t) && t@ == "A"@
    &&& header[4 * f + 3] matches Cell::Text(t) && t@ == "S"@
}

/// The whole header row of the main-data table.
pub open spec fn main_header_ok(header: Seq<Cell>, files: Seq<FileCoordinateSet>) -> bool {
    forall|f: int| 0 <= f < files.len() ==> #[trigger] main_group_ok(header, files, f)
}

/// The four cells of one file group in one landmark row: the label, then
/// the three coordinates when the file has the landmark, else three
/// fillers.
pub open spec fn main_data_group_ok(
    row: Seq<Cell>,
    files: Seq<FileCoordinateSet>,
    landmarks: Seq<String>,
    l: int,
    f: int,
) -> bool {
    let lab = landmarks[l]@;
    let m = files[f].map_view();
    &&& row[4 * f] matches Cell::Text(t) && t@ == lab
    &&& m.contains_key(lab) ==> row[4 * f + 1] == Cell::Num(m[lab].r) && row[4 * f + 2]
        == Cell::Num(m[lab].a) && row[4 * f + 3] == Cell::Num(m[lab].s)
    &&& !m.contains_key(lab) ==> row[4 * f + 1] is Empty && row[4 * f + 2] is Empty && row[4 * f
        + 3] is Empty
}

/// The whole row of one landmark in the main-data table.
pub open spec fn main_row_ok(
    rows: Seq<Vec<Cell>>,
    files: Seq<FileCoordinateSet>,
    landmarks: Seq<String>,
    l: int,
) -> bool {
    forall|f: int|
        0 <= f < files.len() ==> #[trigger] main_data_group_ok(rows[l + 1]@, files, landmarks, l, f)
}

/// The main-data table: one header row of four cells per sorted file, one
/// row per sorted landmark, every row exactly `4 * files` cells, the label
/// repeated in each file group and three fillers where a file misses the
/// landmark.
pub fn create_main_data(files: &Vec<FileCoordinateSet>, landmarks: &Vec<String>) -> (rows: Vec<
    Vec<Cell>,
>)
    requires
        forall|i: int| 0 <= i < files@.len() ==> (#[trigger] files@[i]).wf(),
    ensures
        rows@.len() == 1 + landmarks@.len(),
        forall|r: int| 0 <= r < rows@.len() ==> (#[trigger] rows@[r])@.len() == 4 * files@.len(),
        main_header_ok(rows@[0]@, files@),
        forall|l: int|
            0 <= l < landmarks@.len() ==> #[trigger] main_row_ok(rows@, files@, landmarks@, l),
{
    let mut rows: Vec<Vec<Cell>> = Vec::new();
    let mut header: Vec<Cell> = Vec::new();
    let mut fi: usize = 0;
    while fi < files.len()
        invariant
            fi <= files@.len(),
            header@.len() == 4 * fi,
            forall|f: int| 0 <= f < fi ==> #[trigger] main_group_ok(header@, files@, f),
        decreases files@.len() - fi,
    {
        let ghost h0 = header@;
        let file = &files[fi];
        header.push(Cell::Text(file.file_name.clone()));
        header.push(Cell::Text("R".to_owned()));
        header.push(Cell::Text("A".to_owned()));
        header.push(Cell::Text("S".to_owned()));
        proof {
            assert forall|f: int| 0 <= f < fi + 1 implies #[trigger] main_group_ok(
                header@,
                files@,
                f,
            ) by {
                if f < fi {
                    assert(main_group_ok(h0, files@, f));
                    assert(header@[4 * f] == h0[4 * f]);
                    assert(header@[4 * f + 1] == h0[4 * f + 1]);
                    assert(header@[4 * f + 2] == h0[4 * f + 2]);
                    assert(header@[4 * f + 3] == h0[4 * f + 3]);
                }
            }
        }
        fi = fi + 1;
    }
    rows.push(header);
    let mut li: usize = 0;
    while li < landmarks.len()
        invariant
            li <= landmarks@.len(),
            rows@.len() == 1 + li,
            forall|i: int| 0 <= i < files@.len() ==> (#[trigger] files@[i]).wf(),
            forall|r: int|
                0 <= r < rows@.len() ==> (#[trigger] rows@[r])@.len() == 4 * files@.len(),
            main_header_ok(rows@[0]@, files@),
            forall|l: int|
                0 <= l < li ==> #[trigger] main_row_ok(rows@, files@, landmarks@, l),
        decreases landmarks@.len() - li,
    {
        let label = &landmarks[li];
        let mut row: Vec<Cell> = Vec::new();
        let mut fi: usize = 0;
        while fi < files.len()
            invariant
                fi <= files@.len(),
                li < landmarks@.len(),
                label == &landmarks@[li as int],
                forall|i: int| 0 <= i < files@.len() ==> (#[trigger] files@[i]).wf(),
                row@.len() == 4 * fi,
                forall|f: int|
                    0 <= f < fi ==> #[trigger] main_data_group_ok(
                        row@,
                        files@,
                        landmarks@,
                        li as int,
                        f,
                    ),
            decreases files@.len() - fi,
        {
            let ghost r0 = row@;
            let file = &files[fi];
            row.push(Cell::Text(label.clone()));
            match file.get(label) {
                Some(c) => {
                    row.push(Cell::Num(c.r));
                    row.push(Cell::Num(c.a));
                    row.push(Cell::Num(c.s));
                },
                None => {
                    row.push(Cell::Empty);
                    row.push(Cell::Empty);
                    row.push(Cell::Empty);
                },
            }
            proof {
                assert forall|f: int| 0 <= f < fi + 1 implies #[trigger] main_data_group_ok(
                    row@,
                    files@,
                    landmarks@,
                    li as int,
                    f,
                ) by {
                    if f < fi {
                        assert(main_data_group_ok(r0, files@, landmarks@, li as int, f));
                        assert(row@[4 * f] == r0[4 * f]);
                        assert(row@[4 * f + 1] == r0[4 * f + 1]);
                        assert(row@[4 * f + 2] == r0[4 * f + 2]);
                        assert(row@[4 * f + 3] == r0[4 * f + 3]);
                    }
                }
            }
            fi = fi + 1;
        }
        let ghost rows0 = rows@;
        rows.push(row);
        proof {
            assert forall|l: int| 0 <= l < li + 1 implies #[trigger] main_row_ok(
                rows@,
                files@,
                landmarks@,
                l,
            ) by {
                if l < li {
                    assert(main_row_ok(rows0, files@, landmarks@, l));
                    assert(rows@[l + 1] == rows0[l + 1]);
                }
            }
        }
        li = li + 1;
    }
    rows
}

/// The two header cells of one landmark in the statistics table: the
/// label suffixed for the Anterior and Superior columns; Right is left
/// out of this table by design.
pub open spec fn stat_header_group_ok(header: Seq<Cell>, landmarks: Seq<String>, l: int) -> bool {
    &&& header[1 + 2 * l] matches Cell::Text(t) && t@ == landmarks[l]@ + "__A"@
    &&& header[2 + 2 * l] matches Cell::Text(t) && t@ == landmarks[l]@ + "__S"@
}

/// The whole header row of the statistics table.
pub open spec fn stat_header_ok(header: Seq<Cell>, landmarks: Seq<String>) -> bool {
    &&& header[0] matches Cell::Text(t) && t@ == "Samples"@
    &&& forall|l: int| 0 <= l < landmarks.len() ==> #[trigger] stat_header_group_ok(header, landmarks, l)
}

/// The two cells of one landmark in one file row: the Anterior and
/// Superior coordinates when present, else two fillers.
pub open spec fn stat_group_ok(
    row: Seq<Cell>,
    files: Seq<FileCoordinateSet>,
    landmarks: Seq<String>,
    f: int,
    l: int,
) -> bool {
    let lab = landmarks[l]@;
    let m = files[f].map_view();
    &&& m.contains_key(lab) ==> row[1 + 2 * l] == Cell::Num(m[lab].a) && row[2 + 2 * l]
        == Cell::Num(m[lab].s)
    &&& !m.contains_key(lab) ==> row[1 + 2 * l] is Empty && row[2 + 2 * l] is Empty
}

/// The whole row of one file in the statistics table.
pub open spec fn stat_row_ok(
    rows: Seq<Vec<Cell>>,
    files: Seq<FileCoordinateSet>,
    landmarks: Seq<String>,
    f: int,
) -> bool {
    &&& rows[f + 1]@[0] matches Cell::Text(t) && t@ == files[f].file_name@
    &&& forall|l: int|
        0 <= l < landmarks.len() ==> #[trigger] stat_group_ok(rows[f + 1]@, files, landmarks, f, l)
}

/// The statistics table: a header of `Samples` and two suffixed columns
/// per sorted landmark, one row per sorted file, every row exactly
/// `1 + 2 * landmarks` cells, two fillers where a file misses a landmark.
pub fn create_statistics(files: &Vec<FileCoordinateSet>, landmarks: &Vec<String>) -> (rows: Vec<
    Vec<Cell>,
>)
    requires
        forall|i: int| 0 <= i < files@.len() ==> (#[trigger] files@[i]).wf(),
    ensures
        rows@.len() == 1 + files@.len(),
        forall|r: int|
            0 <= r < rows@.len() ==> (#[trigger] rows@[r])@.len() == 1 + 2 * landmarks@.len(),
        stat_header_ok(rows@[0]@, landmarks@),
        forall|f: int| 0 <= f < files@.len() ==> #[trigger] stat_row_ok(rows@, files@, landmarks@, f),
{
    let mut rows: Vec<Vec<Cell>> = Vec::new();
    let mut header: Vec<Cell> = Vec::new();
    header.push(Cell::Text("Samples".to_owned()));
    let mut li: usize = 0;
    while li < landmarks.len()
        invariant
            li <= landmarks@.len(),
            header@.len() == 1 + 2 * li,
            header@[0] matches Cell::Text(t) && t@ == "Samples"@,
            forall|l: int| 0 <= l < li ==> #[trigger] stat_header_group_ok(header@, landmarks@, l),
        decreases landmarks@.len() - li,
    {
        let ghost h0 = header@;
        let label = &landmarks[li];
        header.push(Cell::Text(label.clone().concat("__A")));
        header.push(Cell::Text(label.clone().concat("__S")));
        proof {
            assert forall|l: int| 0 <= l < li + 1 implies #[trigger] stat_header_group_ok(
                header@,
                landmarks@,
                l,
            ) by {
                if l < li {
                    assert(stat_header_group_ok(h0, landmarks@, l));
                    assert(header@[1 + 2 * l] == h0[1 + 2 * l]);
                    assert(header@[2 + 2 * l] == h0[2 + 2 * l]);
                }
            }
        }
        li = li + 1;
    }
    rows.push(header);
    let mut fi: usize = 0;
    while fi < files.len()
        invariant
            fi <= files@.len(),
            rows@.len() == 1 + fi,
            forall|i: int| 0 <= i < files@.len() ==> (#[trigger] files@[i]).wf(),
            forall|r: int|
                0 <= r < rows@.len() ==> (#[trigger] rows@[r])@.len() == 1 + 2 * landmarks@.len(),
            stat_header_ok(rows@[0]@, landmarks@),
            forall|f: int| 0 <= f < fi ==> #[trigger] stat_row_ok(rows@, files@, landmarks@, f),
        decreases files@.len() - fi,
    {
        let file = &files[fi];
        let mut row: Vec<Cell> = Vec::new();
        row.push(Cell::Text(file.file_name.clone()));
        let mut li: usize = 0;
        while li < landmarks.len()
            invariant
                li <= landmarks@.len(),
                fi < files@.len(),
                file == &files@[fi as int],
                forall|i: int| 0 <= i < files@.len() ==> (#[trigger] files@[i]).wf(),
                row@.len() == 1 + 2 * li,
                row@[0] matches Cell::Text(t) && t@ == files@[fi as int].file_name@,
                forall|l: int|
                    0 <= l < li ==> #[trigger] stat_group_ok(
                        row@,
                        files@,
                        landmarks@,
                        fi as int,
                        l,
                    ),
            decreases landmarks@.len() - li,
        {
            let ghost r0 = row@;
            let label = &landmarks[li];
            match file.get(label) {
                Some(c) => {
                    row.push(Cell::Num(c.a));
                    row.push(Cell::Num(c.s));
                },
                None => {
                    row.push(Cell::Empty);
                    row.push(Cell::Empty);
                },
            }
            proof {
                assert forall|l: int| 0 <= l < li + 1 implies #[trigger] stat_group_ok(
                    row@,
                    files@,
                    landmarks@,
                    fi as int,
                    l,
                ) by {
                    if l < li {
                        assert(stat_group_ok(r0, files@, landmarks@, fi as int, l));
                        assert(row@[1 + 2 * l] == r0[1 + 2 * l]);
                        assert(row@[2 + 2 * l] == r0[2 + 2 * l]);
                    }
                }
            }
            li = li + 1;
        }
        let ghost rows0 = rows@;
        rows.push(row);
        proof {
            assert forall|f: int| 0 <= f < fi + 1 implies #[trigger] stat_row_ok(
                rows@,
                files@,
                landmarks@,
                f,
            ) by {
                if f < fi {
                    assert(stat_row_ok(rows0, files@, landmarks@, f));
                    assert(rows@[f + 1] == rows0[f + 1]);
                }
            }
        }
        fi = fi + 1;
    }
    rows
}

} // verus!
