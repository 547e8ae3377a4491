use crate::error::TableError;
use crate::text::float_text_ok;
use crate::text::i64_text;
use crate::text::int_text;
use crate::text::int_val;
use crate::text::is_float_text;
use crate::text::is_i64_text;
use crate::text::parse_i64;
use vstd::prelude::*;

verus! {

/// The semantic type assigned to a column, fixed at construction.
#[derive(Clone, Copy, PartialEq, Eq, Structural, Debug)]
pub enum TypeTag {
    Null,
    Boolean,
    Integer64,
    Float64,
    Str,
}

/// One concrete (non-null) value stored in a column.
///
/// Floating-point cells are carried by their decimal text, fixed where the
/// value enters the library; the engine never interprets that text
/// numerically except when a cast re-parses it.
#[derive(Debug, PartialEq, Eq)]
pub enum Value {
    Int(i64),
    Float(String),
    Bool(bool),
    Str(String),
}

/// The mathematical content of a `Value`.
pub ghost enum ValV {
    Int(int),
    Float(Seq<char>),
    Bool(bool),
    Str(Seq<char>),
}

impl View for Value {
    type V = ValV;

    open spec fn view(&self) -> ValV {
        match self {
            Value::Int(i) => ValV::Int(*i as int),
            Value::Float(t) => ValV::Float(t@),
            Value::Bool(b) => ValV::Bool(*b),
            Value::Str(s) => ValV::Str(s@),
        }
    }
}

impl DeepView for Value {
    type V = ValV;

    open spec fn deep_view(&self) -> ValV {
        self.view()
    }
}

/// Whether a value is of the kind a column with tag `t` may hold.
pub open spec fn val_fits(v: ValV, t: TypeTag) -> bool {
    match v {
        ValV::Int(_) => t == TypeTag::Integer64,
        ValV::Float(_) => t == TypeTag::Float64,
        ValV::Bool(_) => t == TypeTag::Boolean,
        ValV::Str(_) => t == TypeTag::Str,
    }
}

/// A named, single-typed, ordered sequence of optional (nullable) values.
#[derive(Debug, PartialEq, Eq)]
pub struct Column {
    pub name: String,
    pub tag: TypeTag,
    pub vals: Vec<Option<Value>>,
}

/// The mathematical content of a `Column`.
pub ghost struct ColV {
    pub name: Seq<char>,
    pub tag: TypeTag,
    pub vals: Seq<Option<ValV>>,
}

impl ColV {
    /// Every stored value matches the column's tag.  A `Null` column holds,
    /// besides nulls, at most text values: the fallback text an empty
    /// sample cell contributes as such a column's first slot.
    pub open spec fn wf(self) -> bool {
        forall|j: int|
            0 <= j < self.vals.len() && self.vals[j] is Some ==> (val_fits(
                #[trigger] self.vals[j]->0,
                self.tag,
            ) || (self.tag == TypeTag::Null && self.vals[j]->0 is Str))
    }
}

impl View for Column {
    type V = ColV;

    open spec fn view(&self) -> ColV {
        ColV { name: self.name@, tag: self.tag, vals: self.vals.deep_view() }
    }
}

impl DeepView for Column {
    type V = ColV;

    open spec fn deep_view(&self) -> ColV {
        self.view()
    }
}

// ---------------------------------------------------------------------------
// Value-preserving casts.
// ---------------------------------------------------------------------------

/// The value-preserving conversion of one value to a target type, if any.
///
/// Integers render to their canonical decimal text; texts parse back to
/// integers, are kept verbatim as float texts when well-shaped, and read as
/// booleans only when they are exactly `true` or `false`; booleans convert
/// to the integer one or zero.  No value converts to the null type.
pub open spec fn cast_val_spec(v: ValV, to: TypeTag) -> Option<ValV> {
    match v {
        ValV::Int(i) => match to {
            TypeTag::Integer64 => Option::Some(v),
            TypeTag::Float64 => Option::Some(ValV::Float(int_text(i))),
            TypeTag::Str => Option::Some(ValV::Str(int_text(i))),
            TypeTag::Boolean => Option::None,
            TypeTag::Null => Option::None,
        },
        ValV::Float(t) => match to {
            TypeTag::Float64 => Option::Some(v),
            TypeTag::Str => Option::Some(ValV::Str(t)),
            TypeTag::Integer64 => if is_i64_text(t) {
                Option::Some(ValV::Int(int_val(t)))
            } else {
                Option::None
            },
            TypeTag::Boolean => Option::None,
            TypeTag::Null => Option::None,
        },
        ValV::Bool(b) => match to {
            TypeTag::Boolean => Option::Some(v),
            TypeTag::Str => Option::Some(
                ValV::Str(
                    if b {
                        "true"@
                    } else {
                        "false"@
                    },
                ),
            ),
            TypeTag::Integer64 => Option::Some(
                ValV::Int(
                    if b {
                        1
                    } else {
                        0
                    },
                ),
            ),
            TypeTag::Float64 => Option::Some(
                ValV::Float(
                    if b {
                        "1"@
                    } else {
                        "0"@
                    },
                ),
            ),
            TypeTag::Null => Option::None,
        },
        ValV::Str(s) => match to {
            TypeTag::Str => Option::Some(v),
            TypeTag::Integer64 => if is_i64_text(s) {
                Option::Some(ValV::Int(int_val(s)))
            } else {
                Option::None
            },
            TypeTag::Float64 => if is_float_text(s) {
                Option::Some(ValV::Float(s))
            } else {
                Option::None
            },
            TypeTag::Boolean => if s == "true"@ {
                Option::Some(ValV::Bool(true))
            } else if s == "false"@ {
                Option::Some(ValV::Bool(false))
            } else {
                Option::None
            },
            TypeTag::Null => Option::None,
        },
    }
}

/// `cast_val_spec` lifted to a nullable column slot: nulls stay null.
pub open spec fn cast_step(ov: Option<ValV>, to: TypeTag) -> Option<ValV> {
    match ov {
        Option::None => Option::None,
        Option::Some(x) => cast_val_spec(x, to),
    }
}

/// Whether every value of the column converts to `to`.  A cast to the null
/// type succeeds only when the column holds nothing but nulls.
pub open spec fn cast_col_ok(c: ColV, to: TypeTag) -> bool {
    forall|j: int|
        0 <= j < c.vals.len() && c.vals[j] is Some ==> cast_val_spec(#[trigger] c.vals[j]->0, to)
            is Some
}

/// The slots of a successfully cast column.
pub open spec fn cast_col_vals(vals: Seq<Option<ValV>>, to: TypeTag) -> Seq<Option<ValV>> {
    vals.map_values(|ov: Option<ValV>| cast_step(ov, to))
}

/// Computes the conversion of one value, `None` when it cannot convert.
fn cast_value(v: &Value, to: TypeTag) -> (r: Option<Value>)
    ensures
        r is Some <==> cast_val_spec(v@, to) is Some,
        r is Some ==> r->0@ == cast_val_spec(v@, to)->0,
{
    match v {
        Value::Int(i) => match to {
            TypeTag::Integer64 => Option::Some(Value::Int(*i)),
            TypeTag::Float64 => Option::Some(Value::Float(i64_text(*i))),
            TypeTag::Str => Option::Some(Value::Str(i64_text(*i))),
            TypeTag::Boolean => Option::None,
            TypeTag::Null => Option::None,
        },
        Value::Float(t) => match to {
            TypeTag::Float64 => Option::Some(Value::Float(t.clone())),
            TypeTag::Str => Option::Some(Value::Str(t.clone())),
            TypeTag::Integer64 => match parse_i64(t.as_str()) {
                Option::Some(n) => Option::Some(Value::Int(n)),
                Option::None => Option::None,
            },
            TypeTag::Boolean => Option::None,
            TypeTag::Null => Option::None,
        },
        Value::Bool(b) => match to {
            TypeTag::Boolean => Option::Some(Value::Bool(*b)),
            TypeTag::Str => Option::Some(
                Value::Str(
                    if *b {
                        String::from_str("true")
                    } else {
                        String::from_str("false")
                    },
                ),
            ),
            TypeTag::Integer64 => Option::Some(
                Value::Int(
                    if *b {
                        1
                    } else {
                        0
                    },
                ),
            ),
            TypeTag::Float64 => Option::Some(
                Value::Float(
                    if *b {
                        String::from_str("1")
                    } else {
                        String::from_str("0")
                    },
                ),
            ),
            TypeTag::Null => Option::None,
        },
        Value::Str(s) => match to {
            TypeTag::Str => Option::Some(Value::Str(s.clone())),
            TypeTag::Integer64 => match parse_i64(s.as_str()) {
                Option::Some(n) => Option::Some(Value::Int(n)),
                Option::None => Option::None,
            },
            TypeTag::Float64 => if float_text_ok(s.as_str()) {
                Option::Some(Value::Float(s.clone()))
            } else {
                Option::None
            },
            TypeTag::Boolean => if s.eq(&String::from_str("true")) {
                Option::Some(Value::Bool(true))
            } else if s.eq(&String::from_str("false")) {
                Option::Some(Value::Bool(false))
            } else {
                Option::None
            },
            TypeTag::Null => Option::None,
        },
    }
}

/// Copies one value.
pub fn clone_value(v: &Value) -> (r: Value)
    ensures
        r@ == v@,
{
    match v {
        Value::Int(i) => Value::Int(*i),
        Value::Float(t) => Value::Float(t.clone()),
        Value::Bool(b) => Value::Bool(*b),
        Value::Str(s) => Value::Str(s.clone()),
    }
}

/// Copies a column's slots.
pub fn clone_vals(vals: &Vec<Option<Value>>) -> (r: Vec<Option<Value>>)
    ensures
        r.deep_view() == vals.deep_view(),
{
    let n = vals.len();
    let mut out: Vec<Option<Value>> = Vec::new();
    let mut i: usize = 0;
    while i < n
        invariant
            i == out@.len() <= n == vals@.len(),
            forall|j: int| 0 <= j < i ==> out.deep_view()[j] == vals.deep_view()[j],
        decreases n - i,
    {
        match &vals[i] {
            Option::None => out.push(Option::None),
            Option::Some(v) => out.push(Option::Some(clone_value(v))),
        }
        i += 1;
    }
    proof {
        assert(out.deep_view() =~= vals.deep_view());
    }
    out
}

impl Column {
    /// Copies the column.
    pub fn duplicate(&self) -> (r: Column)
        ensures
            r@ == self@,
    {
        Column { name: self.name.clone(), tag: self.tag, vals: clone_vals(&self.vals) }
    }

    /// Produces a new column of type `to` by value-preserving conversion,
    /// leaving this column untouched.
    ///
    /// Fails with `CastFailure` exactly when some value cannot convert.
    #[verifier::loop_isolation(false)]
    pub fn cast(&self, to: TypeTag) -> (r: Result<Column, TableError>)
        ensures
            r is Ok <==> cast_col_ok(self@, to),
            r is Ok ==> {
                let c = r->Ok_0@;
                &&& c.name == self@.name
                &&& c.tag == to
                &&& c.vals == cast_col_vals(self@.vals, to)
            },
            r is Err ==> (match r->Err_0 {
                TableError::CastFailure { column, from, to: t } => column@ == self@.name && from
                    == self@.tag && t == to,
                _ => false,
            }),
    {
        let n = self.vals.len();
        let mut out: Vec<Option<Value>> = Vec::new();
        let mut i: usize = 0;
        while i < n
            invariant
                i == out@.len() <= n,
                forall|j: int| 0 <= j < i ==> (#[trigger] out@[j]).deep_view() == cast_step(
                    self@.vals[j],
                    to,
                ),
                forall|j: int|
                    0 <= j < i && self@.vals[j] is Some ==> cast_val_spec(
                        #[trigger] self@.vals[j]->0,
                        to,
                    ) is Some,
            decreases n - i,
        {
            proof {
                assert(self@.vals[i as int] == self.vals@[i as int].deep_view());
            }
            let slot: Option<Value> = match &self.vals[i] {
                Option::None => Option::None,
                Option::Some(v) => {
                    match cast_value(v, to) {
                        Option::Some(w) => Option::Some(w),
                        Option::None => {
                            proof {
                                assert(self.vals@[i as int].deep_view() == Option::Some(v@));
                                assert(cast_val_spec(self@.vals[i as int]->0, to) is None);
                                assert(!cast_col_ok(self@, to));
                            }
                            return Result::Err(
                                TableError::CastFailure {
                                    column: self.name.clone(),
                                    from: self.tag,
                                    to,
                                },
                            );
                        },
                    }
                },
            };
            let ghost out0 = out@;
            out.push(slot);
            proof {
                assert(slot.deep_view() == cast_step(self@.vals[i as int], to));
                assert forall|j: int| 0 <= j <= i implies (#[trigger] out@[j]).deep_view()
                    == cast_step(self@.vals[j], to) by {
                    if j < i {
                        assert(out@[j] == out0[j]);
                    } else {
                        assert(out@[j] == slot);
                    }
                }
            }
            i += 1;
        }
        proof {
            assert forall|j: int| 0 <= j < n implies out.deep_view()[j] == cast_col_vals(
                self@.vals,
                to,
            )[j] by {
                assert(out.deep_view()[j] == out@[j].deep_view());
            }
            assert(out.deep_view() =~= cast_col_vals(self@.vals, to));
        }
        Result::Ok(Column { name: self.name.clone(), tag: to, vals: out })
    }
}

} // verus!
