//! Worksheet cells, the tutor record, and the mapping of one row of cells to a
//! record.
use vstd::prelude::*;
use vstd::string::*;
use crate::float::{float_to_i64, trunc_float_bits};
use crate::text::{
    contains, contains_str, decimal, decimal_string, split_trim_str, split_trimmed, trim, trim_str,
    views,
};

verus! {

/// Position of the identifier cell in a row.
pub const ID_COLUMN: usize = 2;

/// Position of the name cell in a row.
pub const NAME_COLUMN: usize = 3;

/// Position of the grade cell in a row.
pub const GRADE_COLUMN: usize = 4;

/// Position of the first subjects cell in a row.
pub const SUBJECTS_START: usize = 5;

/// Number of subjects cells in a row.
pub const SUBJECT_COLUMNS: usize = 7;

/// One cell of a worksheet.
#[derive(Clone, Debug, PartialEq, Eq)]
pub enum Cell {
    Int(i64),
    /// A floating-point cell, held as the IEEE 754 bits of its value
    /// (`f64::to_bits`).
    Float(u64),
    Text(String),
    Bool(bool),
    /// An empty cell, or one of a kind that no field reads (a date, a
    /// duration, an error).
    Other,
}

/// What a cell holds.
pub enum CellView {
    Int(int),
    Float(u64),
    Text(Seq<char>),
    Bool(bool),
    Other,
}

impl View for Cell {
    type V = CellView;

    open spec fn view(&self) -> CellView {
        match self {
            Cell::Int(i) => CellView::Int(*i as int),
            Cell::Float(b) => CellView::Float(*b),
            Cell::Text(s) => CellView::Text(s@),
            Cell::Bool(b) => CellView::Bool(*b),
            Cell::Other => CellView::Other,
        }
    }
}

/// The contents of a row of cells.
pub open spec fn row_view(row: Seq<Cell>) -> Seq<CellView> {
    row.map_values(|c: Cell| c@)
}

/// A tutor record.
#[derive(Clone, Debug, PartialEq, Eq)]
pub struct Tutor {
    pub id: String,
    pub name: String,
    pub available: bool,
    pub photo: String,
    pub grade: String,
    pub subjects: Vec<String>,
}

/// What a tutor record holds.
pub struct TutorView {
    pub id: Seq<char>,
    pub name: Seq<char>,
    pub available: bool,
    pub photo: Seq<char>,
    pub grade: Seq<char>,
    pub subjects: Seq<Seq<char>>,
}

impl View for Tutor {
    type V = TutorView;

    open spec fn view(&self) -> TutorView {
        TutorView {
            id: self.id@,
            name: self.name@,
            available: self.available,
            photo: self.photo@,
            grade: self.grade@,
            subjects: views(self.subjects@),
        }
    }
}

/// The records held by a sequence of tutors.
pub open spec fn tutor_views(v: Seq<Tutor>) -> Seq<TutorView> {
    v.map_values(|t: Tutor| t@)
}

/// The cell at position `k` of a row, if the row is that long.
pub open spec fn cell_at(row: Seq<CellView>, k: int) -> Option<CellView> {
    if 0 <= k < row.len() {
        Some(row[k])
    } else {
        None
    }
}

/// The text of an identifier or grade cell: an integer, or a float truncated
/// toward zero, in decimal; a string trimmed; anything else, or no cell, the
/// field's sentinel.
pub open spec fn numeric_field(c: Option<CellView>, sentinel: Seq<char>) -> Seq<char> {
    match c {
        Some(CellView::Int(i)) => decimal(i),
        Some(CellView::Float(b)) => decimal(float_to_i64(b)),
        Some(CellView::Text(s)) => trim(s),
        _ => sentinel,
    }
}

/// The text of a name cell: a string trimmed; anything else the sentinel.
pub open spec fn name_field(c: Option<CellView>) -> Seq<char> {
    match c {
        Some(CellView::Text(s)) => trim(s),
        _ => "Unknown Name"@,
    }
}

/// The subject tokens of the text of one cell, after trimming it: split on a
/// double space if it holds one, else on commas if it holds one, else the text
/// itself unless it is empty.
pub open spec fn text_tokens(s: Seq<char>) -> Seq<Seq<char>> {
    let t = trim(s);
    if contains(t, "  "@) {
        split_trimmed(t, "  "@)
    } else if contains(t, ","@) {
        split_trimmed(t, ","@)
    } else if t.len() > 0 {
        seq![t]
    } else {
        seq![]
    }
}

/// The subject tokens of one cell: none unless it holds a string.
pub open spec fn cell_tokens(c: CellView) -> Seq<Seq<char>> {
    match c {
        CellView::Text(s) => text_tokens(s),
        _ => seq![],
    }
}

/// The subject tokens of the subjects cells of a row from position `k` on,
/// in cell order.
pub open spec fn subjects_from(row: Seq<CellView>, k: int) -> Seq<Seq<char>>
    decreases SUBJECTS_START + SUBJECT_COLUMNS - k,
{
    if k < SUBJECTS_START || k >= SUBJECTS_START + SUBJECT_COLUMNS || k >= row.len() {
        seq![]
    } else {
        cell_tokens(row[k]) + subjects_from(row, k + 1)
    }
}

/// The record that a row maps to.
pub open spec fn record_of(row: Seq<CellView>) -> TutorView {
    let name = name_field(cell_at(row, NAME_COLUMN as int));
    TutorView {
        id: numeric_field(cell_at(row, ID_COLUMN as int), "Unknown_ID"@),
        name: name,
        available: false,
        photo: name + ".jpeg"@,
        grade: numeric_field(cell_at(row, GRADE_COLUMN as int), "Unknown Grade"@),
        subjects: subjects_from(row, SUBJECTS_START as int),
    }
}

/// The identifier or grade text of the cell at position `k`, or `sentinel`.
fn numeric_text(row: &Vec<Cell>, k: usize, sentinel: &str) -> (r: String)
    ensures
        r@ == numeric_field(cell_at(row_view(row@), k as int), sentinel@),
{
    if k < row.len() {
        assert(row_view(row@)[k as int] == row@[k as int]@);
        match &row[k] {
            Cell::Int(i) => decimal_string(*i),
            Cell::Float(b) => decimal_string(trunc_float_bits(*b)),
            Cell::Text(s) => trim_str(s.as_str()),
            _ => String::from_str(sentinel),
        }
    } else {
        String::from_str(sentinel)
    }
}

/// The name text of a row.
fn name_text(row: &Vec<Cell>) -> (r: String)
    ensures
        r@ == name_field(cell_at(row_view(row@), NAME_COLUMN as int)),
{
    if NAME_COLUMN < row.len() {
        assert(row_view(row@)[NAME_COLUMN as int] == row@[NAME_COLUMN as int]@);
        if let Cell::Text(s) = &row[NAME_COLUMN] {
            return trim_str(s.as_str());
        }
    }
    String::from_str("Unknown Name")
}

/// The subject tokens of the text of one cell.
pub fn split_subjects(s: &str) -> (r: Vec<String>)
    ensures
        views(r@) == text_tokens(s@),
{
    let t = trim_str(s);
    let ts = t.as_str();
    if contains_str(ts, "  ") {
        proof {
            reveal_strlit("  ");
        }
        split_trim_str(ts, "  ")
    } else if contains_str(ts, ",") {
        proof {
            reveal_strlit(",");
        }
        split_trim_str(ts, ",")
    } else if ts.unicode_len() > 0 {
        let mut r: Vec<String> = Vec::new();
        r.push(t);
        assert(views(r@) == seq![t@]);
        r
    } else {
        let r: Vec<String> = Vec::new();
        assert(views(r@) == Seq::<Seq<char>>::empty());
        r
    }
}

/// The subject tokens of a row's subjects cells, in cell order.
fn subjects_of(row: &Vec<Cell>) -> (r: Vec<String>)
    ensures
        views(r@) == subjects_from(row_view(row@), SUBJECTS_START as int),
{
    let ghost rv = row_view(row@);
    let mut out: Vec<String> = Vec::new();
    let mut k: usize = SUBJECTS_START;
    while k < SUBJECTS_START + SUBJECT_COLUMNS && k < row.len()
        invariant
            rv == row_view(row@),
            SUBJECTS_START <= k <= SUBJECTS_START + SUBJECT_COLUMNS,
            views(out@) + subjects_from(rv, k as int) == subjects_from(
                rv,
                SUBJECTS_START as int,
            ),
        decreases SUBJECTS_START + SUBJECT_COLUMNS - k,
    {
        assert(rv[k as int] == row@[k as int]@);
        let mut toks: Vec<String> = match &row[k] {
            Cell::Text(s) => split_subjects(s.as_str()),
            _ => Vec::new(),
        };
        assert(views(toks@) == cell_tokens(rv[k as int]));
        let ghost before = out@;
        out.append(&mut toks);
        assert(views(out@) == views(before) + cell_tokens(rv[k as int]));
        k = k + 1;
    }
    assert(subjects_from(rv, k as int) == Seq::<Seq<char>>::empty());
    assert(views(out@) + Seq::<Seq<char>>::empty() == views(out@));
    out
}

/// The record that a row of cells maps to. Every field has a fallback, so
/// every row gives a record.
pub fn map_row(row: &Vec<Cell>) -> (r: Tutor)
    ensures
        r@ == record_of(row_view(row@)),
        !r.available,
        r.photo@ == r.name@ + ".jpeg"@,
{
    let id = numeric_text(row, ID_COLUMN, "Unknown_ID");
    let name = name_text(row);
    let grade = numeric_text(row, GRADE_COLUMN, "Unknown Grade");
    let subjects = subjects_of(row);
    let photo = name.clone().concat(".jpeg");
    Tutor { id, name, available: false, photo, grade, subjects }
}

/// Mapping a row depends on what its cells hold and on nothing else: two rows
/// that hold the same cells map to the same record, so mapping a row again
/// gives the record it gave before.
pub proof fn lemma_record_of_same_cells(a: Seq<Cell>, b: Seq<Cell>)
    requires
        row_view(a) == row_view(b),
    ensures
        record_of(row_view(a)) == record_of(row_view(b)),
{
}

/// Every row maps to a record: its identifier, name and grade are read from
/// their cells or are their sentinels, it is not available, its photo is its
/// name with `.jpeg` after it, and its subjects come from the subjects cells.
pub proof fn lemma_record_of_fields(row: Seq<CellView>)
    ensures
        ({
            let r = record_of(row);
            &&& r.id == numeric_field(cell_at(row, ID_COLUMN as int), "Unknown_ID"@)
            &&& r.name == name_field(cell_at(row, NAME_COLUMN as int))
            &&& !r.available
            &&& r.photo == r.name + ".jpeg"@
            &&& r.grade == numeric_field(cell_at(row, GRADE_COLUMN as int), "Unknown Grade"@)
            &&& r.subjects == subjects_from(row, SUBJECTS_START as int)
        }),
        row.len() <= ID_COLUMN ==> record_of(row).id == "Unknown_ID"@,
        row.len() <= NAME_COLUMN ==> record_of(row).name == "Unknown Name"@,
        row.len() <= GRADE_COLUMN ==> record_of(row).grade == "Unknown Grade"@,
        row.len() <= SUBJECTS_START ==> record_of(row).subjects.len() == 0,
{
}

} // verus!
