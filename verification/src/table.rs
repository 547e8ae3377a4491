use crate::column::ColV;
use crate::column::Column;
use crate::column::TypeTag;
use crate::column::cast_col_ok;
use crate::column::cast_col_vals;
use crate::error::TableError;
use vstd::prelude::*;

verus! {

/// An ordered collection of named, typed columns.
///
/// The strict constructor `new` insists on equal column lengths; the
/// auto-type builder assembles its result directly, since its documented
/// drop policy can legitimately leave columns of unequal lengths.
#[derive(Debug, PartialEq, Eq)]
pub struct Table {
    pub cols: Vec<Column>,
}

/// Whether all columns have the same length.
pub open spec fn rect_cols(cols: Seq<ColV>) -> bool {
    forall|i: int| 0 <= i < cols.len() ==> (#[trigger] cols[i].vals.len()) == cols[0].vals.len()
}

/// The target type of the first request pair whose name matches, if any.
pub open spec fn pair_match(pairs: Seq<(Seq<char>, TypeTag)>, name: Seq<char>) -> Option<TypeTag>
    decreases pairs.len(),
{
    if pairs.len() == 0 {
        Option::None
    } else if pairs[0].0 == name {
        Option::Some(pairs[0].1)
    } else {
        pair_match(pairs.drop_first(), name)
    }
}

/// The mathematical content of a request list.
pub open spec fn pairs_view(pairs: Seq<(String, TypeTag)>) -> Seq<(Seq<char>, TypeTag)> {
    pairs.map_values(|p: (String, TypeTag)| (p.0@, p.1))
}

/// How one output column relates to its input column under a request list.
pub open spec fn recast_col(colv: ColV, pv: Seq<(Seq<char>, TypeTag)>, outv: ColV) -> bool {
    match pair_match(pv, colv.name) {
        Option::None => outv == colv,
        Option::Some(t) => {
            &&& outv.name == colv.name
            &&& outv.tag == t
            &&& outv.vals == cast_col_vals(colv.vals, t)
        },
    }
}

proof fn lemma_pair_match_found(ps: Seq<(Seq<char>, TypeTag)>, name: Seq<char>, j: int)
    requires
        0 <= j < ps.len(),
        ps[j].0 == name,
        forall|q: int| 0 <= q < j ==> (#[trigger] ps[q]).0 != name,
    ensures
        pair_match(ps, name) == Option::Some(ps[j].1),
    decreases j,
{
    if j > 0 {
        assert(ps[0].0 != name);
        assert(ps.drop_first()[j - 1] == ps[j]);
        assert(forall|q: int| 0 <= q < j - 1 ==> (#[trigger] ps.drop_first()[q]) == ps[q + 1]);
        lemma_pair_match_found(ps.drop_first(), name, j - 1);
    }
}

proof fn lemma_pair_match_missing(ps: Seq<(Seq<char>, TypeTag)>, name: Seq<char>)
    requires
        forall|q: int| 0 <= q < ps.len() ==> (#[trigger] ps[q]).0 != name,
    ensures
        pair_match(ps, name) is None,
    decreases ps.len(),
{
    if ps.len() > 0 {
        assert(forall|q: int| 0 <= q < ps.len() - 1 ==> (#[trigger] ps.drop_first()[q]) == ps[q
            + 1]);
        lemma_pair_match_missing(ps.drop_first(), name);
    }
}

/// Finds the first request pair matching `name` and returns its target type.
#[verifier::loop_isolation(false)]
fn find_target(pairs: &Vec<(String, TypeTag)>, name: &String) -> (r: Option<TypeTag>)
    ensures
        r == pair_match(pairs_view(pairs@), name@),
{
    let m = pairs.len();
    let mut j: usize = 0;
    while j < m
        invariant
            0 <= j <= m,
            forall|q: int| 0 <= q < j ==> (#[trigger] pairs_view(pairs@)[q]).0 != name@,
        decreases m - j,
    {
        if pairs[j].0.eq(name) {
            proof {
                assert(pairs_view(pairs@)[j as int].0 == name@);
                lemma_pair_match_found(pairs_view(pairs@), name@, j as int);
            }
            return Option::Some(pairs[j].1);
        }
        proof {
            assert(pairs_view(pairs@)[j as int].0 == pairs@[j as int].0@);
        }
        j += 1;
    }
    proof {
        lemma_pair_match_missing(pairs_view(pairs@), name@);
    }
    Option::None
}

impl Table {
    /// Strict construction: fails unless every column has the same length.
    pub fn new(cols: Vec<Column>) -> (r: Result<Table, TableError>)
        ensures
            r is Ok <==> rect_cols(cols.deep_view()),
            r is Ok ==> r->Ok_0.cols.deep_view() == cols.deep_view(),
            r is Err ==> r->Err_0 is ColumnLengthMismatch,
    {
        let n = cols.len();
        let mut i: usize = 0;
        while i < n
            invariant
                0 <= i <= n == cols@.len(),
                forall|q: int|
                    0 <= q < i ==> (#[trigger] cols.deep_view()[q].vals.len())
                        == cols.deep_view()[0].vals.len(),
            decreases n - i,
        {
            proof {
                assert(cols.deep_view()[i as int] == cols@[i as int].deep_view());
                assert(cols.deep_view()[0] == cols@[0].deep_view());
            }
            if cols[i].vals.len() != cols[0].vals.len() {
                proof {
                    assert(cols.deep_view()[i as int].vals.len() == cols@[i as int].vals@.len());
                    assert(cols.deep_view()[0].vals.len() == cols@[0].vals@.len());
                    assert(!rect_cols(cols.deep_view()));
                }
                return Result::Err(TableError::ColumnLengthMismatch);
            }
            i += 1;
        }
        Result::Ok(Table { cols })
    }

    /// The number of columns.
    pub fn width(&self) -> (r: usize)
        ensures
            r == self.cols.deep_view().len(),
    {
        self.cols.len()
    }

    /// Produces a new table in which every column named by a request pair is
    /// cast to the requested type and every other column passes through
    /// unchanged; this table is left untouched.
    ///
    /// Column order and count are preserved exactly.  A column matching more
    /// than one pair is cast to the first requested type.  Fails with the
    /// `CastFailure` of the first column (in table order) whose values
    /// cannot convert.
    #[verifier::loop_isolation(false)]
    pub fn with_types(&self, pairs: &Vec<(String, TypeTag)>) -> (r: Result<Table, TableError>)
        ensures
            r is Ok <==> (forall|i: int|
                0 <= i < self.cols.deep_view().len() && (#[trigger] pair_match(
                    pairs_view(pairs@),
                    self.cols.deep_view()[i].name,
                )) is Some ==> cast_col_ok(
                    self.cols.deep_view()[i],
                    pair_match(pairs_view(pairs@), self.cols.deep_view()[i].name)->0,
                )),
            r is Ok ==> {
                let outv = r->Ok_0.cols.deep_view();
                &&& outv.len() == self.cols.deep_view().len()
                &&& forall|i: int|
                    0 <= i < outv.len() ==> recast_col(
                        self.cols.deep_view()[i],
                        pairs_view(pairs@),
                        #[trigger] outv[i],
                    )
            },
            r is Err ==> (match r->Err_0 {
                TableError::CastFailure { column, from, to } => exists|i: int|
                    {
                        &&& 0 <= i < self.cols.deep_view().len()
                        &&& #[trigger] pair_match(
                            pairs_view(pairs@),
                            self.cols.deep_view()[i].name,
                        ) == Option::Some(to)
                        &&& column@ == self.cols.deep_view()[i].name
                        &&& from == self.cols.deep_view()[i].tag
                        &&& !cast_col_ok(self.cols.deep_view()[i], to)
                        &&& forall|q: int|
                            0 <= q < i && (#[trigger] pair_match(
                                pairs_view(pairs@),
                                self.cols.deep_view()[q].name,
                            )) is Some ==> cast_col_ok(
                                self.cols.deep_view()[q],
                                pair_match(pairs_view(pairs@), self.cols.deep_view()[q].name)->0,
                            )
                    },
                _ => false,
            }),
    {
        let ghost colsv = self.cols.deep_view();
        let ghost pv = pairs_view(pairs@);
        let n = self.cols.len();
        let mut out: Vec<Column> = Vec::new();
        let mut i: usize = 0;
        while i < n
            invariant
                0 <= i <= n == self.cols@.len(),
                out@.len() == i,
                forall|q: int|
                    0 <= q < i ==> recast_col(colsv[q], pv, (#[trigger] out@[q]).deep_view()),
                forall|q: int|
                    0 <= q < i && (#[trigger] pair_match(pv, colsv[q].name)) is Some
                        ==> cast_col_ok(colsv[q], pair_match(pv, colsv[q].name)->0),
            decreases n - i,
        {
            let col = &self.cols[i];
            proof {
                assert(colsv[i as int] == self.cols@[i as int].deep_view());
            }
            match find_target(pairs, &col.name) {
                Option::None => {
                    let d = col.duplicate();
                    out.push(d);
                },
                Option::Some(t) => {
                    match col.cast(t) {
                        Result::Ok(c) => out.push(c),
                        Result::Err(e) => {
                            return Result::Err(e);
                        },
                    }
                },
            }
            i += 1;
        }
        Result::Ok(Table { cols: out })
    }
}

} // verus!
