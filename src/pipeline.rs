//! The conversion of a worksheet: the header row is skipped, every other row
//! is mapped to a record, and only the first record of each identifier is
//! kept.
use vstd::prelude::*;
use crate::dedup::{
    first_seen, has_id, is_first, lemma_first_seen, lemma_first_seen_ids, push_if_new,
};
use crate::record::{Cell, CellView, Tutor, TutorView, map_row, record_of, row_view, tutor_views};

verus! {

/// Why a conversion run failed.
#[derive(Clone, Copy, Debug, PartialEq, Eq)]
pub enum ConvertError {
    /// The workbook file does not exist.
    InputNotFound,
    /// The workbook file exists but cannot be read as a workbook.
    InputParseError,
    /// The workbook holds no worksheet.
    NoWorksheet,
    /// The first worksheet's cells cannot be decoded.
    SheetReadError,
    /// The destination's directory cannot be created.
    DirectoryCreateError,
    /// The destination file cannot be created or written.
    FileWriteError,
    /// The records cannot be encoded.
    SerializationError,
}

/// The contents of a grid of rows.
pub open spec fn grid_view(rows: Seq<Vec<Cell>>) -> Seq<Seq<CellView>> {
    rows.map_values(|r: Vec<Cell>| row_view(r@))
}

/// The records that the rows below the header map to, in row order.
pub open spec fn candidates(rows: Seq<Seq<CellView>>) -> Seq<TutorView> {
    rows.drop_first().map_values(|r: Seq<CellView>| record_of(r))
}

/// The records of a worksheet: row 0 is the header and is skipped; the others
/// are mapped to records, and of the records that share an identifier only the
/// first is kept.
pub open spec fn convert(rows: Seq<Seq<CellView>>) -> Seq<TutorView> {
    if rows.len() == 0 {
        seq![]
    } else {
        first_seen(candidates(rows))
    }
}

/// No two records of a converted worksheet share an identifier, and every
/// identifier of a row below the header is that of some record.
pub proof fn lemma_convert_ids(rows: Seq<Seq<CellView>>, id: Seq<char>)
    ensures
        forall|k1: int, k2: int|
            0 <= k1 < convert(rows).len() && 0 <= k2 < convert(rows).len() && k1 != k2
                ==> #[trigger] convert(rows)[k1].id != #[trigger] convert(rows)[k2].id,
        rows.len() > 0 ==> (has_id(convert(rows), id) == has_id(candidates(rows), id)),
{
    if rows.len() > 0 {
        lemma_first_seen(candidates(rows));
        lemma_first_seen_ids(candidates(rows), id);
    }
}

/// The records of a worksheet given as its rows, header row first.
pub fn convert_rows(rows: &Vec<Vec<Cell>>) -> (r: Vec<Tutor>)
    ensures
        tutor_views(r@) == convert(grid_view(rows@)),
{
    let mut out: Vec<Tutor> = Vec::new();
    if rows.len() == 0 {
        assert(tutor_views(out@) == Seq::<TutorView>::empty());
        return out;
    }
    let ghost c = candidates(grid_view(rows@));
    let mut i: usize = 1;
    assert(c.take(0) == Seq::<TutorView>::empty());
    assert(tutor_views(out@) == Seq::<TutorView>::empty());
    while i < rows.len()
        invariant
            c == candidates(grid_view(rows@)),
            c.len() == rows.len() - 1,
            1 <= i <= rows.len(),
            tutor_views(out@) == first_seen(c.take(i - 1)),
        decreases rows.len() - i,
    {
        let cand = map_row(&rows[i]);
        let ghost j = i - 1;
        proof {
            assert(grid_view(rows@).drop_first()[j] == row_view(rows@[i as int]@));
            assert(cand@ == c[j]);
            let p = c.take(j + 1);
            assert(p.drop_last() == c.take(j));
            assert(p.last() == c[j]);
            lemma_first_seen_ids(c.take(j), cand.id@);
            if is_first(p, j) {
                assert forall|k: int| 0 <= k < j implies #[trigger] c.take(j)[k].id != cand.id@ by {
                    assert(p[k] == c.take(j)[k]);
                }
            } else {
                let k = choose|k: int| 0 <= k < j && #[trigger] p[k].id == p[j].id;
                assert(c.take(j)[k] == p[k]);
            }
            assert(has_id(c.take(j), cand.id@) == !is_first(p, j));
        }
        push_if_new(&mut out, cand);
        i = i + 1;
    }
    assert(c.take(rows.len() - 1) == c);
    out
}

/// The name of the worksheet to convert: the first, by position.
pub fn first_sheet(names: &Vec<String>) -> (r: Result<String, ConvertError>)
    ensures
        names.len() == 0 ==> r == Err::<String, ConvertError>(ConvertError::NoWorksheet),
        names.len() > 0 ==> (r matches Ok(n) && n@ == names[0]@),
{
    if names.len() == 0 {
        Err(ConvertError::NoWorksheet)
    } else {
        Ok(names[0].clone())
    }
}

} // verus!
