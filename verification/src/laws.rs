use crate::cell::CellV;
use crate::cell::render_of;
use crate::column::ColV;
use crate::column::TypeTag;
use crate::column::ValV;
use crate::column::cast_col_ok;
use crate::column::cast_col_vals;
use crate::column::cast_step;
use crate::column::cast_val_spec;
use crate::column::val_fits;
use crate::sheet::all_str_col;
use crate::sheet::auto_col;
use crate::sheet::inferred_tag;
use crate::sheet::ingest_vals;
use crate::sheet::rect_rows;
use crate::sheet::sample_ok;
use crate::sheet::sample_slot;
use crate::sheet::sample_tag;
use crate::table::pair_match;
use crate::table::recast_col;
use crate::text::int_text;
use crate::text::lemma_int_text_parses;
use vstd::prelude::*;

verus! {

/// A successful cast lands in the target type, and a value already of the
/// target type casts to itself.
pub proof fn lemma_cast_val_idempotent(v: ValV, t: TypeTag)
    requires
        cast_val_spec(v, t) is Some,
    ensures
        val_fits(cast_val_spec(v, t)->0, t),
        cast_val_spec(cast_val_spec(v, t)->0, t) == cast_val_spec(v, t),
{
}

/// Casting a column twice to the same type is the same as casting it once:
/// the once-cast column casts without failure, and is left unchanged.
pub proof fn lemma_cast_col_idempotent(c: ColV, t: TypeTag)
    requires
        cast_col_ok(c, t),
    ensures
        cast_col_ok(ColV { name: c.name, tag: t, vals: cast_col_vals(c.vals, t) }, t),
        cast_col_vals(cast_col_vals(c.vals, t), t) == cast_col_vals(c.vals, t),
{
    let once = cast_col_vals(c.vals, t);
    assert forall|j: int| 0 <= j < once.len() && once[j] is Some implies cast_val_spec(
        #[trigger] once[j]->0,
        t,
    ) is Some by {
        assert(once[j] == cast_step(c.vals[j], t));
        lemma_cast_val_idempotent(c.vals[j]->0, t);
    }
    assert forall|j: int| 0 <= j < once.len() implies cast_col_vals(once, t)[j] == once[j] by {
        assert(cast_col_vals(once, t)[j] == cast_step(once[j], t));
        assert(once[j] == cast_step(c.vals[j], t));
        if c.vals[j] is Some {
            lemma_cast_val_idempotent(c.vals[j]->0, t);
        }
    }
    assert(cast_col_vals(once, t) =~= once);
}

/// Re-typing a table twice with the same requests equals re-typing it once:
/// a table that came out of the caster goes through the caster again, with
/// the same requests, without failure and without change.
pub proof fn lemma_with_types_idempotent(
    cols: Seq<ColV>,
    pv: Seq<(Seq<char>, TypeTag)>,
    out: Seq<ColV>,
)
    requires
        out.len() == cols.len(),
        forall|i: int| 0 <= i < cols.len() ==> recast_col(cols[i], pv, #[trigger] out[i]),
        forall|i: int|
            0 <= i < cols.len() && (#[trigger] pair_match(pv, cols[i].name)) is Some
                ==> cast_col_ok(cols[i], pair_match(pv, cols[i].name)->0),
    ensures
        forall|i: int|
            0 <= i < out.len() && (#[trigger] pair_match(pv, out[i].name)) is Some ==> cast_col_ok(
                out[i],
                pair_match(pv, out[i].name)->0,
            ),
        forall|i: int| 0 <= i < out.len() ==> recast_col(out[i], pv, #[trigger] out[i]),
{
    assert forall|i: int|
        0 <= i < out.len() && (#[trigger] pair_match(pv, out[i].name)) is Some implies cast_col_ok(
        out[i],
        pair_match(pv, out[i].name)->0,
    ) by {
        assert(recast_col(cols[i], pv, out[i]));
        if pair_match(pv, cols[i].name) is Some {
            let t = pair_match(pv, cols[i].name)->0;
            lemma_cast_col_idempotent(cols[i], t);
        }
    }
    assert forall|i: int| 0 <= i < out.len() implies recast_col(out[i], pv, #[trigger] out[i]) by {
        assert(recast_col(cols[i], pv, out[i]));
        if pair_match(pv, cols[i].name) is Some {
            let t = pair_match(pv, cols[i].name)->0;
            lemma_cast_col_idempotent(cols[i], t);
        }
    }
}

/// The canonical text of an integer value casts back to that integer.
pub proof fn lemma_int_text_casts(v: int)
    requires
        i64::MIN <= v <= i64::MAX,
    ensures
        cast_val_spec(ValV::Str(int_text(v)), TypeTag::Integer64) == Option::Some(ValV::Int(v)),
{
    lemma_int_text_parses(v);
}

/// Round trip: an all-string column casts back to the type the auto-type
/// builder would infer for it, whenever each stored text re-parses to that
/// type.  (A column whose sample re-parses but that holds some later
/// unparseable text still fails the cast; such inputs are excluded by the
/// premise.)
pub proof fn lemma_round_trip(rows: Seq<Seq<CellV>>, i: int)
    requires
        rect_rows(rows),
        rows.len() >= 2,
        0 <= i < rows[0].len(),
        sample_ok(rows),
        forall|j: int|
            1 <= j < rows.len() ==> cast_val_spec(
                ValV::Str(render_of(#[trigger] rows[j][i])),
                inferred_tag(rows, i)->0,
            ) is Some,
    ensures
        cast_col_ok(all_str_col(rows, i), inferred_tag(rows, i)->0),
{
    let c = all_str_col(rows, i);
    let t = inferred_tag(rows, i)->0;
    assert forall|j: int| 0 <= j < c.vals.len() && c.vals[j] is Some implies cast_val_spec(
        #[trigger] c.vals[j]->0,
        t,
    ) is Some by {
        assert(c.vals[j] == Option::Some(ValV::Str(render_of(rows[j + 1][i]))));
    }
}

/// The text form of a cell re-parses to the cell's own type, for the types
/// whose rendering the library fixes itself: integers (their canonical
/// decimal), booleans (`true`/`false`), and strings (kept verbatim).  Float
/// renderings come from the caller, so nothing general holds of them.
pub proof fn lemma_cell_text_recasts(c: CellV, t: TypeTag)
    requires
        sample_tag(c) == Option::Some(t),
        t == TypeTag::Integer64 || t == TypeTag::Boolean || t == TypeTag::Str,
        c matches CellV::Int(v) ==> i64::MIN <= v <= i64::MAX,
    ensures
        cast_val_spec(ValV::Str(render_of(c)), t) is Some,
{
    match c {
        CellV::Int(v) => {
            lemma_int_text_parses(v);
        },
        _ => {},
    }
}

/// Round trip for columns whose every data cell already has the inferred
/// type, when that type is integer, boolean or string: the all-string
/// column always casts back without failure.
pub proof fn lemma_round_trip_matching(rows: Seq<Seq<CellV>>, i: int)
    requires
        rect_rows(rows),
        rows.len() >= 2,
        0 <= i < rows[0].len(),
        sample_ok(rows),
        inferred_tag(rows, i)->0 == TypeTag::Integer64 || inferred_tag(rows, i)->0
            == TypeTag::Boolean || inferred_tag(rows, i)->0 == TypeTag::Str,
        forall|j: int|
            1 <= j < rows.len() ==> sample_tag(#[trigger] rows[j][i]) == inferred_tag(rows, i),
        forall|j: int|
            1 <= j < rows.len() ==> ((#[trigger] rows[j][i]) matches CellV::Int(v) ==> i64::MIN
                <= v <= i64::MAX),
    ensures
        cast_col_ok(all_str_col(rows, i), inferred_tag(rows, i)->0),
{
    let t = inferred_tag(rows, i)->0;
    assert forall|j: int| 1 <= j < rows.len() implies cast_val_spec(
        ValV::Str(render_of(#[trigger] rows[j][i])),
        t,
    ) is Some by {
        lemma_cell_text_recasts(rows[j][i], t);
    }
    lemma_round_trip(rows, i);
}

/// Every slot the ingestion phase stores matches the column's type.
pub proof fn lemma_ingest_vals_fit(cells: Seq<CellV>, t: TypeTag)
    ensures
        forall|j: int|
            0 <= j < ingest_vals(cells, t).len() && (#[trigger] ingest_vals(cells, t)[j]) is Some
                ==> val_fits(ingest_vals(cells, t)[j]->0, t),
    decreases cells.len(),
{
    if cells.len() > 0 {
        lemma_ingest_vals_fit(cells.drop_last(), t);
    }
}

/// The auto-type builder produces well-formed columns: every stored value
/// matches the type fixed by the sample row, except that an empty sample
/// cell stores its empty-string fallback text in the null-typed column it
/// fixes.
pub proof fn lemma_auto_col_wf(rows: Seq<Seq<CellV>>, i: int)
    requires
        rows.len() >= 2,
        0 <= i < rows[0].len(),
        sample_ok(rows),
    ensures
        auto_col(rows, i).wf(),
{
    let c = auto_col(rows, i);
    let t = inferred_tag(rows, i)->0;
    lemma_ingest_vals_fit(crate::sheet::col_cells(rows, i), t);
    assert forall|j: int| 0 <= j < c.vals.len() && c.vals[j] is Some implies (val_fits(
        c.vals[j]->0,
        c.tag,
    ) || (c.tag == TypeTag::Null && c.vals[j]->0 is Str)) by {
        if j == 0 {
            assert(c.vals[0] == sample_slot(rows[1][i]));
            assert(sample_tag(rows[1][i]) == Option::Some(t));
        } else {
            assert(c.vals[j] == ingest_vals(crate::sheet::col_cells(rows, i), t)[j - 1]);
        }
    }
}

/// The all-string builder produces well-formed, string-typed columns.
pub proof fn lemma_all_str_col_wf(rows: Seq<Seq<CellV>>, i: int)
    requires
        rows.len() >= 1,
        0 <= i < rows[0].len(),
    ensures
        all_str_col(rows, i).wf(),
        all_str_col(rows, i).tag == TypeTag::Str,
        all_str_col(rows, i).vals.len() == rows.len() - 1,
{
}

} // verus!
