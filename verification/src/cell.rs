use crate::text::int_text;
use crate::text::i64_text;
use vstd::prelude::*;

verus! {

/// One raw spreadsheet cell, as handed to the library by its caller.
///
/// The closed taxonomy mirrors what a spreadsheet reader reports: integers,
/// floating-point numbers, booleans, text, empty positions, error markers,
/// and datetime values.  Floating-point and datetime cells are carried by
/// their text renderings, fixed where the value enters the library: the
/// engine reads of such a cell only its kind and its text.  An error cell
/// carries the reader's display text for the error marker.
#[derive(Debug, PartialEq, Eq)]
pub enum Cell {
    Int(i64),
    Float(String),
    Bool(bool),
    Str(String),
    Empty,
    Error(String),
    DateTime { rendered: Option<String>, text: String },
}

/// The mathematical content of a `Cell`.
pub ghost enum CellV {
    Int(int),
    Float(Seq<char>),
    Bool(bool),
    Str(Seq<char>),
    Empty,
    Error(Seq<char>),
    DateTime { rendered: Option<Seq<char>>, text: Seq<char> },
}

impl View for Cell {
    type V = CellV;

    open spec fn view(&self) -> CellV {
        match self {
            Cell::Int(i) => CellV::Int(*i as int),
            Cell::Float(t) => CellV::Float(t@),
            Cell::Bool(b) => CellV::Bool(*b),
            Cell::Str(s) => CellV::Str(s@),
            Cell::Empty => CellV::Empty,
            Cell::Error(t) => CellV::Error(t@),
            Cell::DateTime { rendered, text } => CellV::DateTime {
                rendered: match rendered {
                    Option::Some(t) => Option::Some(t@),
                    Option::None => Option::None,
                },
                text: text@,
            },
        }
    }
}

impl DeepView for Cell {
    type V = CellV;

    open spec fn deep_view(&self) -> CellV {
        self.view()
    }
}

/// The generic text form of a cell: the canonical decimal for integers, the
/// carried text for floats, errors and datetimes, `true`/`false` for
/// booleans, the text itself for strings, and empty text for empty cells.
pub open spec fn text_of(c: CellV) -> Seq<char> {
    match c {
        CellV::Int(i) => int_text(i),
        CellV::Float(t) => t,
        CellV::Bool(b) => if b {
            "true"@
        } else {
            "false"@
        },
        CellV::Str(s) => s,
        CellV::Empty => Seq::empty(),
        CellV::Error(t) => t,
        CellV::DateTime { rendered: _, text } => text,
    }
}

/// The text the all-string builder stores for a cell: a datetime cell
/// renders through its datetime conversion, falling back to empty text when
/// that rendering is missing; every other cell uses its generic text form.
pub open spec fn render_of(c: CellV) -> Seq<char> {
    match c {
        CellV::DateTime { rendered, text: _ } => match rendered {
            Option::Some(t) => t,
            Option::None => Seq::empty(),
        },
        _ => text_of(c),
    }
}

/// Computes the generic text form of a cell.
pub fn text_form(c: &Cell) -> (r: String)
    ensures
        r@ == text_of(c@),
{
    match c {
        Cell::Int(i) => i64_text(*i),
        Cell::Float(t) => t.clone(),
        Cell::Bool(b) => if *b {
            String::from_str("true")
        } else {
            String::from_str("false")
        },
        Cell::Str(s) => s.clone(),
        Cell::Empty => String::new(),
        Cell::Error(t) => t.clone(),
        Cell::DateTime { rendered: _, text } => text.clone(),
    }
}

/// Computes the all-string builder's text for a cell.
pub fn render_form(c: &Cell) -> (r: String)
    ensures
        r@ == render_of(c@),
{
    match c {
        Cell::DateTime { rendered, text: _ } => match rendered {
            Option::Some(t) => t.clone(),
            Option::None => String::new(),
        },
        _ => text_form(c),
    }
}

} // verus!
