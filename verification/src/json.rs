//! The structured value that carries a node's parameters.

use vstd::prelude::*;
use crate::value::Value;
use crate::value::ValueView;
use crate::value::datetime_text;
use crate::value::lemma_view_unfolds;

verus! {

/// A number: an integer, or a finite float held as the 64 bits of its binary
/// form.
#[derive(Clone, Copy, Debug, PartialEq, Eq)]
pub enum Number {
    Integer(i64),
    Float(u64),
}

/// A structured value without a schema.
#[derive(Debug, PartialEq)]
pub enum Json {
    Null,
    Bool(bool),
    Number(Number),
    String(String),
    Array(Vec<Json>),
    /// An object: its members in the order of their keys in the document.
    Object(Vec<(String, Json)>),
}

/// What a `Json` holds.
pub enum JsonView {
    Null,
    Bool(bool),
    Number(Number),
    String(Seq<char>),
    Array(Seq<JsonView>),
    Object(Seq<(Seq<char>, JsonView)>),
}

/// What `j` holds.
pub open spec fn json_view(j: Json) -> JsonView
    decreases j,
{
    match j {
        Json::Null => JsonView::Null,
        Json::Bool(b) => JsonView::Bool(b),
        Json::Number(n) => JsonView::Number(n),
        Json::String(s) => JsonView::String(s@),
        Json::Array(a) => JsonView::Array(
            Seq::new(
                a@.len(),
                |i: int|
                    if 0 <= i < a@.len() {
                        json_view(a@[i])
                    } else {
                        JsonView::Null
                    },
            ),
        ),
        Json::Object(m) => JsonView::Object(
            Seq::new(
                m@.len(),
                |i: int|
                    if 0 <= i < m@.len() {
                        (m@[i].0@, json_view(m@[i].1))
                    } else {
                        (Seq::empty(), JsonView::Null)
                    },
            ),
        ),
    }
}

impl View for Json {
    type V = JsonView;

    open spec fn view(&self) -> JsonView {
        json_view(*self)
    }
}

/// Whether the float of these bits is finite: its exponent is not all ones.
pub open spec fn is_finite(bits: u64) -> bool {
    (bits >> 52) & 0x7ff != 0x7ff
}

/// The structured value that stands for a value of the document: a string,
/// an integer and a boolean for themselves, a finite float for itself and any
/// other float for null, a timestamp for its text, an array item by item and
/// a table entry by entry.
pub open spec fn json_of(v: ValueView) -> JsonView
    decreases v,
{
    match v {
        ValueView::String(s) => JsonView::String(s),
        ValueView::Integer(i) => JsonView::Number(Number::Integer(i)),
        ValueView::Float(b) => if is_finite(b) {
            JsonView::Number(Number::Float(b))
        } else {
            JsonView::Null
        },
        ValueView::Boolean(b) => JsonView::Bool(b),
        ValueView::Datetime(d) => JsonView::String(datetime_text(d)),
        ValueView::Array(a) => JsonView::Array(
            Seq::new(
                a.len(),
                |i: int|
                    if 0 <= i < a.len() {
                        json_of(a[i])
                    } else {
                        JsonView::Null
                    },
            ),
        ),
        ValueView::Table(t) => JsonView::Object(
            Seq::new(
                t.len(),
                |i: int|
                    if 0 <= i < t.len() {
                        (t[i].0, json_of(t[i].1))
                    } else {
                        (Seq::empty(), JsonView::Null)
                    },
            ),
        ),
    }
}

/// Turns a value of the document into the structured value that stands for
/// it.
pub fn toml_into_json(v: &Value) -> (j: Json)
    ensures
        j@ == json_of(v@),
    decreases v,
{
    match v {
        Value::String(s) => Json::String(s.clone()),
        Value::Integer(i) => Json::Number(Number::Integer(*i)),
        Value::Float(b) => {
            if (*b >> 52) & 0x7ff != 0x7ff {
                Json::Number(Number::Float(*b))
            } else {
                Json::Null
            }
        },
        Value::Boolean(b) => Json::Bool(*b),
        Value::Datetime(d) => Json::String(d.text()),
        Value::Array(a) => {
            let mut items: Vec<Json> = Vec::new();
            let mut i: usize = 0;
            while i < a.len()
                invariant
                    i <= a.len(),
                    *v == Value::Array(*a),
                    items@.len() == i,
                    forall|n: int| 0 <= n < i ==> (#[trigger] items@[n])@ == json_of(a@[n]@),
                decreases a.len() - i,
            {
                proof {
                    assert(decreases_to!(*v => v->Array_0@[i as int]));
                }
                items.push(toml_into_json(&a[i]));
                i += 1;
            }
            let j = Json::Array(items);
            proof {
                lemma_view_unfolds(*v);
                assert(j@->Array_0 =~= json_of(v@)->Array_0);
            }
            j
        },
        Value::Table(t) => {
            let mut members: Vec<(String, Json)> = Vec::new();
            let mut i: usize = 0;
            while i < t.len()
                invariant
                    i <= t.len(),
                    *v == Value::Table(*t),
                    members@.len() == i,
                    forall|n: int|
                        0 <= n < i ==> (#[trigger] members@[n]).0@ == t@[n].0@ && members@[n].1@
                            == json_of(t@[n].1@),
                decreases t.len() - i,
            {
                proof {
                    assert(decreases_to!(*v => v->Table_0@[i as int].1));
                }
                members.push((t[i].0.clone(), toml_into_json(&t[i].1)));
                i += 1;
            }
            let j = Json::Object(members);
            proof {
                lemma_view_unfolds(*v);
                assert(j@->Object_0 =~= json_of(v@)->Object_0);
            }
            j
        },
    }
}

} // verus!
