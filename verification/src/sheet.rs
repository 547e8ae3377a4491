use crate::cell::Cell;
use crate::cell::CellV;
use crate::cell::render_form;
use crate::cell::render_of;
use crate::column::ColV;
use crate::column::Column;
use crate::column::TypeTag;
use crate::column::ValV;
use crate::column::Value;
use crate::error::TableError;
use crate::headers::dedup_headers;
use crate::headers::dedup_name;
use crate::headers::header_texts;
use crate::table::Table;
use vstd::prelude::*;

verus! {

/// A sheet: a grid of raw cells whose first row is the header.
///
/// Rows have a fixed width per sheet, an invariant of the data model that
/// the builders require.
pub struct Sheet {
    pub rows: Vec<Vec<Cell>>,
}

/// All rows have the header's width.
pub open spec fn rect_rows(rows: Seq<Seq<CellV>>) -> bool {
    forall|r: int| 0 <= r < rows.len() ==> (#[trigger] rows[r].len()) == rows[0].len()
}

// ---------------------------------------------------------------------------
// Type inference from the sample row.
// ---------------------------------------------------------------------------

/// The column type a sample cell fixes, or `None` for cells on which no
/// schema can be established (error cells and datetime cells).
pub open spec fn sample_tag(c: CellV) -> Option<TypeTag> {
    match c {
        CellV::Int(_) => Option::Some(TypeTag::Integer64),
        CellV::Float(_) => Option::Some(TypeTag::Float64),
        CellV::Bool(_) => Option::Some(TypeTag::Boolean),
        CellV::Str(_) => Option::Some(TypeTag::Str),
        CellV::Empty => Option::Some(TypeTag::Null),
        CellV::Error(_) => Option::None,
        CellV::DateTime { .. } => Option::None,
    }
}

/// The single slot the sample cell contributes to its new column: its
/// value, or — for an empty sample cell — the cell's fallback text, which
/// defaults to the empty string.
pub open spec fn sample_slot(c: CellV) -> Option<ValV> {
    match c {
        CellV::Int(i) => Option::Some(ValV::Int(i)),
        CellV::Float(t) => Option::Some(ValV::Float(t)),
        CellV::Bool(b) => Option::Some(ValV::Bool(b)),
        CellV::Str(s) => Option::Some(ValV::Str(s)),
        CellV::Empty => Option::Some(ValV::Str(Seq::empty())),
        _ => Option::None,
    }
}

/// The slot a cell appends during ingestion: its value, or a null
/// placeholder for an empty cell.
pub open spec fn step_slot(c: CellV) -> Option<ValV> {
    match c {
        CellV::Int(i) => Option::Some(ValV::Int(i)),
        CellV::Float(t) => Option::Some(ValV::Float(t)),
        CellV::Bool(b) => Option::Some(ValV::Bool(b)),
        CellV::Str(s) => Option::Some(ValV::Str(s)),
        _ => Option::None,
    }
}

// ---------------------------------------------------------------------------
// Bulk ingestion, one cell at a time.
// ---------------------------------------------------------------------------

/// Whether streaming cell `c` into a column of type `t` aborts the build:
/// error-kind and datetime cells always do; a value cell of the wrong kind
/// does so exactly on boolean and string columns, which admit no fallback.
pub open spec fn step_fatal(c: CellV, t: TypeTag) -> bool {
    match sample_tag(c) {
        Option::None => true,
        Option::Some(k) => if k == TypeTag::Null {
            false
        } else {
            k != t && (t == TypeTag::Boolean || t == TypeTag::Str)
        },
    }
}

/// Whether the cell appends a slot: empty cells append a null into any
/// column; a value cell appends exactly when its kind matches the column.
pub open spec fn step_pushes(c: CellV, t: TypeTag) -> bool {
    match sample_tag(c) {
        Option::None => false,
        Option::Some(k) => k == TypeTag::Null || k == t,
    }
}

/// A mismatched value cell on a numeric or null column: logged and dropped.
pub open spec fn step_drops(c: CellV, t: TypeTag) -> bool {
    !step_fatal(c, t) && !step_pushes(c, t)
}

/// The slots appended to a column of type `t` by a sequence of its cells.
pub open spec fn ingest_vals(cells: Seq<CellV>, t: TypeTag) -> Seq<Option<ValV>>
    decreases cells.len(),
{
    if cells.len() == 0 {
        Seq::empty()
    } else {
        ingest_vals(cells.drop_last(), t) + (if step_pushes(cells.last(), t) {
            seq![step_slot(cells.last())]
        } else {
            Seq::empty()
        })
    }
}

/// The indices (zero-based within the ingested region) of dropped cells.
pub open spec fn ingest_drops(cells: Seq<CellV>, t: TypeTag) -> Seq<int>
    decreases cells.len(),
{
    if cells.len() == 0 {
        Seq::empty()
    } else {
        ingest_drops(cells.drop_last(), t) + (if step_drops(cells.last(), t) {
            seq![cells.len() - 1]
        } else {
            Seq::empty()
        })
    }
}

/// Whether some cell of the sequence aborts a column of type `t`.
pub open spec fn has_fatal(cells: Seq<CellV>, t: TypeTag) -> bool {
    exists|r: int| 0 <= r < cells.len() && step_fatal(cells[r], t)
}

/// Column `i`'s cells in the ingested region: rows from the third onward.
pub open spec fn col_cells(rows: Seq<Seq<CellV>>, i: int) -> Seq<CellV> {
    rows.subrange(2, rows.len() as int).map_values(|row: Seq<CellV>| row[i])
}

/// The type inferred for column `i` from the sample row.
pub open spec fn inferred_tag(rows: Seq<Seq<CellV>>, i: int) -> Option<TypeTag> {
    sample_tag(rows[1][i])
}

/// Phase two succeeds: every sample cell classifies.
pub open spec fn sample_ok(rows: Seq<Seq<CellV>>) -> bool {
    forall|i: int| 0 <= i < rows[0].len() ==> (#[trigger] inferred_tag(rows, i)) is Some
}

/// Phase three succeeds: no column meets a fatal cell.
pub open spec fn ingest_ok(rows: Seq<Seq<CellV>>) -> bool {
    forall|i: int|
        0 <= i < rows[0].len() ==> !has_fatal(#[trigger] col_cells(rows, i), inferred_tag(rows, i)->0)
}

/// The column the auto-type builder produces at index `i`.
pub open spec fn auto_col(rows: Seq<Seq<CellV>>, i: int) -> ColV {
    ColV {
        name: dedup_name(header_texts(rows[0]), i),
        tag: inferred_tag(rows, i)->0,
        vals: seq![sample_slot(rows[1][i])] + ingest_vals(col_cells(rows, i), inferred_tag(rows, i)->0),
    }
}

/// The column the all-string builder produces at index `i`: every data cell
/// of the column rendered as text, in row order.
pub open spec fn all_str_col(rows: Seq<Seq<CellV>>, i: int) -> ColV {
    ColV {
        name: dedup_name(header_texts(rows[0]), i),
        tag: TypeTag::Str,
        vals: Seq::new(
            (rows.len() - 1) as nat,
            |j: int| Option::Some(ValV::Str(render_of(rows[j + 1][i]))),
        ),
    }
}

// ---------------------------------------------------------------------------
// Mismatch diagnostics.
// ---------------------------------------------------------------------------

/// One logged record of a value dropped from a numeric or null column.
///
/// `row` is the zero-based index of the row within the ingested region (the
/// first ingested row, the sheet's third, is row zero), matching the order
/// in which a streaming ingester would visit rows.
#[derive(Debug, PartialEq, Eq)]
pub struct MismatchRecord {
    pub row: usize,
    pub column: String,
    pub col_index: usize,
    pub expected: TypeTag,
}

/// A record is truthful: it names a real column by its deduplicated name and
/// fixed type, and points at a cell that was indeed dropped.
pub open spec fn rec_wf(rows: Seq<Seq<CellV>>, m: MismatchRecord) -> bool {
    &&& m.col_index < rows[0].len()
    &&& m.column@ == dedup_name(header_texts(rows[0]), m.col_index as int)
    &&& Option::Some(m.expected) == inferred_tag(rows, m.col_index as int)
    &&& m.row + 2 < rows.len()
    &&& step_drops(rows[m.row + 2][m.col_index as int], m.expected)
}

/// The (column, row) pair of a record, for stating order and completeness.
pub open spec fn rec_pair(m: MismatchRecord) -> (int, int) {
    (m.col_index as int, m.row as int)
}

/// The (column, row) pairs of a record sequence.
pub open spec fn rec_pairs(recs: Seq<MismatchRecord>) -> Seq<(int, int)> {
    recs.map_values(|m: MismatchRecord| rec_pair(m))
}

/// Row indices `ks` tagged with the column index `i`.
pub open spec fn pair_col(i: int, ks: Seq<int>) -> Seq<(int, int)> {
    ks.map_values(|k: int| (i, k))
}

/// All dropped positions of the first `i` columns, in the order the builder
/// logs them: column by column, rows in order within a column.
pub open spec fn drops_upto(rows: Seq<Seq<CellV>>, i: int) -> Seq<(int, int)>
    decreases i,
{
    if i <= 0 {
        Seq::empty()
    } else {
        drops_upto(rows, i - 1) + pair_col(
            i - 1,
            ingest_drops(col_cells(rows, i - 1), inferred_tag(rows, i - 1)->0),
        )
    }
}

/// The mathematical content of a column-slot vector.
pub open spec fn slots_view(s: Seq<Option<Value>>) -> Seq<Option<ValV>> {
    s.map_values(|ov: Option<Value>| ov.deep_view())
}

proof fn lemma_ingest_push(cells: Seq<CellV>, c: CellV, t: TypeTag)
    ensures
        ingest_vals(cells.push(c), t) == ingest_vals(cells, t) + (if step_pushes(c, t) {
            seq![step_slot(c)]
        } else {
            Seq::<Option<ValV>>::empty()
        }),
        ingest_drops(cells.push(c), t) == ingest_drops(cells, t) + (if step_drops(c, t) {
            seq![cells.len() as int]
        } else {
            Seq::<int>::empty()
        }),
{
    assert(cells.push(c).drop_last() =~= cells);
    assert(cells.push(c).last() == c);
}

// ---------------------------------------------------------------------------
// Executable classification helpers.
// ---------------------------------------------------------------------------

/// Classifies a cell's kind as a column type.
fn sample_tag_of(c: &Cell) -> (r: Option<TypeTag>)
    ensures
        r == sample_tag(c@),
{
    match c {
        Cell::Int(_) => Option::Some(TypeTag::Integer64),
        Cell::Float(_) => Option::Some(TypeTag::Float64),
        Cell::Bool(_) => Option::Some(TypeTag::Boolean),
        Cell::Str(_) => Option::Some(TypeTag::Str),
        Cell::Empty => Option::Some(TypeTag::Null),
        Cell::Error(_) => Option::None,
        Cell::DateTime { .. } => Option::None,
    }
}

/// Reads a sample cell's contribution to its new column: its value, or the
/// empty-string fallback text for an empty cell.
fn sample_slot_of(c: &Cell) -> (r: Option<Value>)
    ensures
        r.deep_view() == sample_slot(c@),
{
    match c {
        Cell::Int(i) => Option::Some(Value::Int(*i)),
        Cell::Float(t) => Option::Some(Value::Float(t.clone())),
        Cell::Bool(b) => Option::Some(Value::Bool(*b)),
        Cell::Str(s) => Option::Some(Value::Str(s.clone())),
        Cell::Empty => Option::Some(Value::Str(String::new())),
        Cell::Error(_) => Option::None,
        Cell::DateTime { .. } => Option::None,
    }
}

/// Reads a cell's value as an ingestion slot: nulls for empty cells.
fn step_slot_of(c: &Cell) -> (r: Option<Value>)
    ensures
        r.deep_view() == step_slot(c@),
{
    match c {
        Cell::Int(i) => Option::Some(Value::Int(*i)),
        Cell::Float(t) => Option::Some(Value::Float(t.clone())),
        Cell::Bool(b) => Option::Some(Value::Bool(*b)),
        Cell::Str(s) => Option::Some(Value::Str(s.clone())),
        Cell::Empty => Option::None,
        Cell::Error(_) => Option::None,
        Cell::DateTime { .. } => Option::None,
    }
}

impl Sheet {
    /// The deduplicated header, or `MissingHeader` for a sheet with no rows.
    pub fn column_names(&self) -> (r: Result<Vec<String>, TableError>)
        ensures
            r is Ok <==> self.rows@.len() > 0,
            r is Err ==> r->Err_0 is MissingHeader,
            r is Ok ==> {
                let names = r->Ok_0@;
                &&& names.len() == self.rows.deep_view()[0].len()
                &&& forall|i: int|
                    0 <= i < names.len() ==> (#[trigger] names[i])@ == dedup_name(
                        header_texts(self.rows.deep_view()[0]),
                        i,
                    )
            },
    {
        if self.rows.len() == 0 {
            return Result::Err(TableError::MissingHeader);
        }
        proof {
            assert(self.rows.deep_view()[0] == self.rows@[0].deep_view());
        }
        Result::Ok(dedup_headers(&self.rows[0]))
    }

    /// Converts the sheet to a table in which every column is string-typed:
    /// the header is deduplicated, and every later cell is stored as its
    /// text form (datetime cells through their datetime rendering, with an
    /// empty-text fallback).  Every column has length `rows - 1`.
    ///
    /// Fails with `EmptySheet` exactly when the sheet has no rows.
    #[verifier::loop_isolation(false)]
    pub fn to_frame_all_str(&self) -> (r: Result<Table, TableError>)
        requires
            rect_rows(self.rows.deep_view()),
        ensures
            r is Ok <==> self.rows@.len() > 0,
            r is Err ==> r->Err_0 is EmptySheet,
            r is Ok ==> {
                let outv = r->Ok_0.cols.deep_view();
                &&& outv.len() == self.rows.deep_view()[0].len()
                &&& forall|i: int|
                    0 <= i < outv.len() ==> (#[trigger] outv[i]) == all_str_col(
                        self.rows.deep_view(),
                        i,
                    )
            },
    {
        let ghost rows = self.rows.deep_view();
        let nr = self.rows.len();
        if nr == 0 {
            return Result::Err(TableError::EmptySheet);
        }
        proof {
            assert(rows[0] == self.rows@[0].deep_view());
        }
        let headers = dedup_headers(&self.rows[0]);
        let w = headers.len();
        let mut cols: Vec<Column> = Vec::new();
        let mut i: usize = 0;
        while i < w
            invariant
                0 <= i <= w,
                w == rows[0].len(),
                cols@.len() == i,
                forall|q: int|
                    0 <= q < i ==> (#[trigger] cols@[q]).deep_view() == all_str_col(rows, q),
            decreases w - i,
        {
            let mut vals: Vec<Option<Value>> = Vec::new();
            let mut rr: usize = 1;
            while rr < nr
                invariant
                    1 <= rr <= nr,
                    i < w,
                    vals@.len() == rr - 1,
                    forall|j: int|
                        0 <= j < rr - 1 ==> (#[trigger] vals@[j]).deep_view() == Option::Some(
                            ValV::Str(render_of(rows[j + 1][i as int])),
                        ),
                decreases nr - rr,
            {
                let rowv = &self.rows[rr];
                proof {
                    assert(rows[rr as int] == self.rows@[rr as int].deep_view());
                    assert(rows[rr as int].len() == rows[0].len());
                }
                let cell = &rowv[i];
                proof {
                    assert(rows[rr as int][i as int] == rowv@[i as int].deep_view());
                }
                vals.push(Option::Some(Value::Str(render_form(cell))));
                rr += 1;
            }
            let col = Column { name: headers[i].clone(), tag: TypeTag::Str, vals };
            proof {
                assert forall|j: int| 0 <= j < nr - 1 implies col.vals.deep_view()[j]
                    == all_str_col(rows, i as int).vals[j] by {
                    assert(col.vals.deep_view()[j] == col.vals@[j].deep_view());
                }
                assert(col.vals.deep_view() =~= all_str_col(rows, i as int).vals);
                assert(col.deep_view() == all_str_col(rows, i as int));
            }
            cols.push(col);
            i += 1;
        }
        proof {
            assert forall|q: int| 0 <= q < w implies cols.deep_view()[q] == all_str_col(
                rows,
                q,
            ) by {
                assert(cols.deep_view()[q] == cols@[q].deep_view());
            }
        }
        Result::Ok(Table { cols })
    }

    /// Infers one type per column from the sample row (the first data row),
    /// then streams every later row into the typed columns.
    ///
    /// The header is deduplicated; the sample row fixes each column's type
    /// (integer, float, boolean, string, or null for an empty sample) and
    /// contributes its first slot — for an empty sample cell, the cell's
    /// fallback text, defaulting to the empty string.  During ingestion a
    /// cell of the column's
    /// kind appends its value, an empty cell appends a null, a mismatched
    /// value cell on a boolean or string column aborts the build, and a
    /// mismatched value cell on a numeric or null column is logged and
    /// dropped — so columns may legitimately end with unequal lengths, and
    /// the result is assembled without the strict length check.
    ///
    /// Returns the table together with the mismatch log, column by column,
    /// rows in order within a column.  Fails with `EmptySheet` on a rowless
    /// sheet, `MissingSampleRow` when only the header is present, and
    /// `UnclassifiableCell` at the first error-kind, datetime or strictly
    /// mismatched cell, sample row first, then column by column.
    #[verifier::loop_isolation(false)]
    pub fn to_frame_auto_type(&self) -> (r: Result<(Table, Vec<MismatchRecord>), TableError>)
        requires
            rect_rows(self.rows.deep_view()),
        ensures
            r is Ok <==> (self.rows@.len() >= 2 && sample_ok(self.rows.deep_view()) && ingest_ok(
                self.rows.deep_view(),
            )),
            r is Ok ==> ({
                let outv = r->Ok_0.0.cols.deep_view();
                let recs = r->Ok_0.1@;
                let rows = self.rows.deep_view();
                &&& outv.len() == rows[0].len()
                &&& forall|i: int| 0 <= i < outv.len() ==> (#[trigger] outv[i]) == auto_col(rows, i)
                &&& rec_pairs(recs) == drops_upto(rows, rows[0].len() as int)
                &&& forall|q: int| 0 <= q < recs.len() ==> rec_wf(rows, #[trigger] recs[q])
            }),
            r is Err ==> (match r->Err_0 {
                TableError::EmptySheet => self.rows@.len() == 0,
                TableError::MissingSampleRow => self.rows@.len() == 1,
                TableError::UnclassifiableCell { row, col } => ({
                    let rows = self.rows.deep_view();
                    &&& rows.len() >= 2
                    &&& col < rows[0].len()
                    &&& ((row == 1 && inferred_tag(rows, col as int) is None && (forall|q: int|
                        0 <= q < col ==> (#[trigger] inferred_tag(rows, q)) is Some)) || (row >= 2
                        && (row as int) < rows.len() && sample_ok(rows) && step_fatal(
                        rows[row as int][col as int],
                        inferred_tag(rows, col as int)->0,
                    ) && (forall|q: int|
                        0 <= q < col ==> !has_fatal(
                            #[trigger] col_cells(rows, q),
                            inferred_tag(rows, q)->0,
                        )) && (forall|p: int|
                        2 <= p < row ==> !step_fatal(
                            #[trigger] rows[p][col as int],
                            inferred_tag(rows, col as int)->0,
                        ))))
                }),
                _ => false,
            }),
    {
        let ghost rows = self.rows.deep_view();
        let nr = self.rows.len();
        if nr == 0 {
            return Result::Err(TableError::EmptySheet);
        }
        if nr == 1 {
            return Result::Err(TableError::MissingSampleRow);
        }
        proof {
            assert(rows[0] == self.rows@[0].deep_view());
            assert(rows[1] == self.rows@[1].deep_view());
            assert(rows[1].len() == rows[0].len());
        }
        let headers = dedup_headers(&self.rows[0]);
        let w = headers.len();
        let row1 = &self.rows[1];
        // Phase two: the whole sample row must classify.
        let mut tags: Vec<TypeTag> = Vec::new();
        let mut i: usize = 0;
        while i < w
            invariant
                0 <= i <= w,
                w == rows[0].len(),
                tags@.len() == i,
                forall|q: int|
                    0 <= q < i ==> Option::Some(tags@[q]) == #[trigger] inferred_tag(rows, q),
            decreases w - i,
        {
            let cell = &row1[i];
            proof {
                assert(rows[1][i as int] == row1@[i as int].deep_view());
            }
            match sample_tag_of(cell) {
                Option::Some(t) => tags.push(t),
                Option::None => {
                    proof {
                        assert(inferred_tag(rows, i as int) is None);
                        assert(!sample_ok(rows));
                    }
                    return Result::Err(TableError::UnclassifiableCell { row: 1, col: i });
                },
            }
            i += 1;
        }
        proof {
            assert(sample_ok(rows));
        }
        // Phase three, column by column.
        let mut cols: Vec<Column> = Vec::new();
        let mut recs: Vec<MismatchRecord> = Vec::new();
        let mut ci: usize = 0;
        while ci < w
            invariant
                0 <= ci <= w,
                w == rows[0].len(),
                cols@.len() == ci,
                forall|q: int|
                    0 <= q < ci ==> (#[trigger] cols@[q]).deep_view() == auto_col(rows, q),
                forall|q: int|
                    0 <= q < ci ==> !has_fatal(
                        #[trigger] col_cells(rows, q),
                        inferred_tag(rows, q)->0,
                    ),
                rec_pairs(recs@) == drops_upto(rows, ci as int),
                forall|q: int| 0 <= q < recs@.len() ==> rec_wf(rows, #[trigger] recs@[q]),
            decreases w - ci,
        {
            let cell = &row1[ci];
            proof {
                assert(rows[1][ci as int] == row1@[ci as int].deep_view());
            }
            let tag = tags[ci];
            proof {
                assert(Option::Some(tag) == inferred_tag(rows, ci as int));
            }
            let mut vals: Vec<Option<Value>> = Vec::new();
            vals.push(sample_slot_of(cell));
            let ghost cellseq = col_cells(rows, ci as int);
            proof {
                assert(cellseq.len() == nr - 2);
                assert forall|k: int| 0 <= k < cellseq.len() implies #[trigger] cellseq[k]
                    == rows[k + 2][ci as int] by {
                    assert(rows.subrange(2, rows.len() as int)[k] == rows[k + 2]);
                }
                assert(slots_view(vals@) =~= seq![sample_slot(rows[1][ci as int])] + ingest_vals(
                    cellseq.subrange(0, 0),
                    tag,
                ));
            }
            let mut rr: usize = 2;
            while rr < nr
                invariant
                    2 <= rr <= nr,
                    ci < w,
                    Option::Some(tag) == inferred_tag(rows, ci as int),
                    slots_view(vals@) == seq![sample_slot(rows[1][ci as int])] + ingest_vals(
                        cellseq.subrange(0, rr - 2),
                        tag,
                    ),
                    rec_pairs(recs@) == drops_upto(rows, ci as int) + pair_col(
                        ci as int,
                        ingest_drops(cellseq.subrange(0, rr - 2), tag),
                    ),
                    forall|q: int| 0 <= q < recs@.len() ==> rec_wf(rows, #[trigger] recs@[q]),
                    forall|p: int| 0 <= p < rr - 2 ==> !step_fatal(#[trigger] cellseq[p], tag),
                decreases nr - rr,
            {
                let rowr = &self.rows[rr];
                proof {
                    assert(rows[rr as int] == self.rows@[rr as int].deep_view());
                    assert(rows[rr as int].len() == rows[0].len());
                }
                let dcell = &rowr[ci];
                let ghost pre = cellseq.subrange(0, rr - 2);
                proof {
                    assert(rows[rr as int][ci as int] == rowr@[ci as int].deep_view());
                    assert(cellseq[rr - 2] == rows[rr as int][ci as int]);
                    lemma_ingest_push(pre, cellseq[rr - 2], tag);
                    assert(pre.push(cellseq[rr - 2]) =~= cellseq.subrange(0, rr - 1));
                }
                match sample_tag_of(dcell) {
                    Option::None => {
                        proof {
                            assert(step_fatal(rows[rr as int][ci as int], tag));
                            assert(has_fatal(cellseq, tag));
                            assert(!ingest_ok(rows));
                            assert forall|p: int| 2 <= p < rr implies !step_fatal(
                                #[trigger] rows[p][ci as int],
                                tag,
                            ) by {
                                assert(cellseq[p - 2] == rows[p][ci as int]);
                            }
                        }
                        return Result::Err(TableError::UnclassifiableCell { row: rr, col: ci });
                    },
                    Option::Some(k) => {
                        if k == TypeTag::Null || k == tag {
                            let slot = step_slot_of(dcell);
                            let ghost vals0 = vals@;
                            vals.push(slot);
                            proof {
                                assert(step_pushes(cellseq[rr - 2], tag));
                                assert(slots_view(vals@) =~= slots_view(vals0).push(
                                    slot.deep_view(),
                                ));
                                assert(slots_view(vals@) =~= seq![
                                    sample_slot(rows[1][ci as int]),
                                ] + ingest_vals(cellseq.subrange(0, rr - 1), tag));
                            }
                        } else if tag == TypeTag::Boolean || tag == TypeTag::Str {
                            proof {
                                assert(step_fatal(rows[rr as int][ci as int], tag));
                                assert(has_fatal(cellseq, tag));
                                assert(!ingest_ok(rows));
                                assert forall|p: int| 2 <= p < rr implies !step_fatal(
                                    #[trigger] rows[p][ci as int],
                                    tag,
                                ) by {
                                    assert(cellseq[p - 2] == rows[p][ci as int]);
                                }
                            }
                            return Result::Err(
                                TableError::UnclassifiableCell { row: rr, col: ci },
                            );
                        } else {
                            let ghost recs0 = recs@;
                            let m = MismatchRecord {
                                row: rr - 2,
                                column: headers[ci].clone(),
                                col_index: ci,
                                expected: tag,
                            };
                            proof {
                                assert(step_drops(cellseq[rr - 2], tag));
                                assert(rec_wf(rows, m));
                            }
                            recs.push(m);
                            proof {
                                assert(rec_pairs(recs@) =~= rec_pairs(recs0).push(rec_pair(m)));
                                assert(pair_col(
                                    ci as int,
                                    ingest_drops(pre, tag).push((rr - 2) as int),
                                ) =~= pair_col(ci as int, ingest_drops(pre, tag)).push(
                                    ((ci as int), (rr - 2) as int),
                                ));
                                assert(rec_pairs(recs@) =~= drops_upto(rows, ci as int) + pair_col(
                                    ci as int,
                                    ingest_drops(cellseq.subrange(0, rr - 1), tag),
                                ));
                            }
                        }
                    },
                }
                rr += 1;
            }
            proof {
                assert(cellseq.subrange(0, (nr - 2) as int) =~= cellseq);
                assert(!has_fatal(cellseq, tag));
            }
            let col = Column { name: headers[ci].clone(), tag, vals };
            proof {
                assert forall|j: int| 0 <= j < vals@.len() implies col.vals.deep_view()[j]
                    == slots_view(vals@)[j] by {
                    assert(col.vals.deep_view()[j] == vals@[j].deep_view());
                }
                assert(col.vals.deep_view() =~= slots_view(vals@));
                assert(col.deep_view() == auto_col(rows, ci as int));
            }
            cols.push(col);
            proof {
                assert(rec_pairs(recs@) == drops_upto(rows, ci + 1));
            }
            ci += 1;
        }
        proof {
            assert(ingest_ok(rows));
            assert forall|q: int| 0 <= q < w implies cols.deep_view()[q] == auto_col(rows, q) by {
                assert(cols.deep_view()[q] == cols@[q].deep_view());
            }
        }
        Result::Ok((Table { cols }, recs))
    }
}

} // verus!
