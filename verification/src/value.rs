//! The nested document that a topology is read from: strings, integers,
//! floats, booleans, timestamps, arrays and tables.

use vstd::prelude::*;

verus! {

/// A calendar date.
#[derive(Clone, Copy, Debug, PartialEq, Eq)]
pub struct Date {
    pub year: u16,
    pub month: u8,
    pub day: u8,
}

/// A time of day.
#[derive(Clone, Copy, Debug, PartialEq, Eq)]
pub struct Time {
    pub hour: u8,
    pub minute: u8,
    pub second: u8,
    pub nanosecond: u32,
}

/// The distance of a local time from UTC.
#[derive(Clone, Copy, Debug, PartialEq, Eq)]
pub enum Offset {
    /// UTC itself.
    Z,
    /// So many minutes east of UTC, or west where negative.
    Custom { minutes: i16 },
}

/// Whether an offset can be written down: all can but the one whose minutes
/// have no positive counterpart.
pub open spec fn offset_renders(offset: Option<Offset>) -> bool {
    offset matches Some(Offset::Custom { minutes }) ==> minutes > i16::MIN
}

/// A timestamp: a date, a time, or both, with or without an offset. Its
/// offset can always be written down.
#[derive(Clone, Copy, Debug, PartialEq, Eq)]
pub struct Datetime {
    date: Option<Date>,
    time: Option<Time>,
    offset: Option<Offset>,
}

impl Datetime {
    #[verifier::type_invariant]
    spec fn renders(self) -> bool {
        offset_renders(self.offset)
    }

    /// The date of this timestamp.
    pub closed spec fn spec_date(&self) -> Option<Date> {
        self.date
    }

    /// The time of day of this timestamp.
    pub closed spec fn spec_time(&self) -> Option<Time> {
        self.time
    }

    /// The offset of this timestamp.
    pub closed spec fn spec_offset(&self) -> Option<Offset> {
        self.offset
    }

    /// The timestamp of these parts, unless the offset cannot be written down.
    pub fn new(date: Option<Date>, time: Option<Time>, offset: Option<Offset>) -> (r: Option<
        Datetime,
    >)
        ensures
            r is Some <==> offset_renders(offset),
            r matches Some(d) ==> d.spec_date() == date && d.spec_time() == time
                && d.spec_offset() == offset,
    {
        let renders = match offset {
            Some(Offset::Custom { minutes }) => minutes > i16::MIN,
            _ => true,
        };
        if renders {
            Some(Datetime { date, time, offset })
        } else {
            None
        }
    }

    #[verifier::when_used_as_spec(spec_date)]
    pub fn date(&self) -> (r: Option<Date>)
        ensures
            r == self.spec_date(),
    {
        self.date
    }

    #[verifier::when_used_as_spec(spec_time)]
    pub fn time(&self) -> (r: Option<Time>)
        ensures
            r == self.spec_time(),
    {
        self.time
    }

    #[verifier::when_used_as_spec(spec_offset)]
    pub fn offset(&self) -> (r: Option<Offset>)
        ensures
            r == self.spec_offset(),
            offset_renders(r),
    {
        proof {
            use_type_invariant(self);
        }
        self.offset
    }
}

/// A value of the document.
#[derive(Debug, PartialEq)]
pub enum Value {
    String(String),
    Integer(i64),
    /// A float, held as the 64 bits of its binary form.
    Float(u64),
    Boolean(bool),
    Datetime(Datetime),
    Array(Vec<Value>),
    /// A table: its entries in the order in which they are walked.
    Table(Vec<(String, Value)>),
}

/// A table of the document: keys with their values, in the order in which
/// they are walked.
pub type Table = Vec<(String, Value)>;

/// What a `Value` holds.
pub enum ValueView {
    String(Seq<char>),
    Integer(i64),
    Float(u64),
    Boolean(bool),
    Datetime(Datetime),
    Array(Seq<ValueView>),
    Table(Seq<(Seq<char>, ValueView)>),
}

/// What a table holds.
pub type TableView = Seq<(Seq<char>, ValueView)>;

/// What `v` holds.
pub open spec fn value_view(v: Value) -> ValueView
    decreases v,
{
    match v {
        Value::String(s) => ValueView::String(s@),
        Value::Integer(i) => ValueView::Integer(i),
        Value::Float(b) => ValueView::Float(b),
        Value::Boolean(b) => ValueView::Boolean(b),
        Value::Datetime(d) => ValueView::Datetime(d),
        Value::Array(a) => ValueView::Array(
            Seq::new(
                a@.len(),
                |i: int|
                    if 0 <= i < a@.len() {
                        value_view(a@[i])
                    } else {
                        ValueView::Boolean(false)
                    },
            ),
        ),
        Value::Table(t) => ValueView::Table(
            Seq::new(
                t@.len(),
                |i: int|
                    if 0 <= i < t@.len() {
                        (t@[i].0@, value_view(t@[i].1))
                    } else {
                        (Seq::empty(), ValueView::Boolean(false))
                    },
            ),
        ),
    }
}

impl View for Value {
    type V = ValueView;

    open spec fn view(&self) -> ValueView {
        value_view(*self)
    }
}

/// What the entries of a table hold.
pub open spec fn table_view(t: Seq<(String, Value)>) -> TableView {
    Seq::new(t.len(), |i: int| (t[i].0@, t[i].1@))
}

/// What the items of an array hold.
pub open spec fn array_view(a: Seq<Value>) -> Seq<ValueView> {
    Seq::new(a.len(), |i: int| a[i]@)
}

/// The view of an array is the views of its items, that of a table the views
/// of its entries.
pub proof fn lemma_view_unfolds(v: Value)
    ensures
        v matches Value::Array(a) ==> v@ == ValueView::Array(array_view(a@)),
        v matches Value::Table(t) ==> v@ == ValueView::Table(table_view(t@)),
{
    match v {
        Value::Array(a) => {
            assert(v@->Array_0 =~= array_view(a@));
        },
        Value::Table(t) => {
            assert(v@->Table_0 =~= table_view(t@));
        },
        _ => {},
    }
}

/// The first value that `t` holds under `k`, looking from the entry at `i` on.
pub open spec fn lookup_from(t: TableView, k: Seq<char>, i: int) -> Option<ValueView>
    decreases t.len() - i,
{
    if i < 0 || i >= t.len() {
        None
    } else if t[i].0 == k {
        Some(t[i].1)
    } else {
        lookup_from(t, k, i + 1)
    }
}

/// The first value that `t` holds under `k`.
pub open spec fn lookup(t: TableView, k: Seq<char>) -> Option<ValueView> {
    lookup_from(t, k, 0)
}

/// Where no entry from `i` up to `j` has the key `k`, looking from `i` finds
/// what looking from `j` finds.
pub proof fn lemma_lookup_skips(t: TableView, k: Seq<char>, i: int, j: int)
    requires
        0 <= i <= j <= t.len(),
        forall|n: int| i <= n < j ==> (#[trigger] t[n]).0 != k,
    ensures
        lookup_from(t, k, i) == lookup_from(t, k, j),
    decreases j - i,
{
    if i < j {
        lemma_lookup_skips(t, k, i + 1, j);
    }
}

/// The first value of `t` under `k`.
pub fn table_get<'a>(t: &'a Table, k: &String) -> (r: Option<&'a Value>)
    ensures
        match r {
            Some(v) => lookup(table_view(t@), k@) == Some(v@),
            None => lookup(table_view(t@), k@) is None,
        },
{
    let mut i: usize = 0;
    while i < t.len()
        invariant
            i <= t.len(),
            forall|n: int| 0 <= n < i ==> (#[trigger] table_view(t@)[n]).0 != k@,
        decreases t.len() - i,
    {
        if t[i].0 == *k {
            proof {
                lemma_lookup_skips(table_view(t@), k@, 0, i as int);
            }
            return Some(&t[i].1);
        }
        i += 1;
    }
    proof {
        lemma_lookup_skips(table_view(t@), k@, 0, i as int);
    }
    None
}

/// The text of a timestamp: what `Display` of `toml::value::Datetime` writes
/// for the timestamp of these parts.
pub uninterp spec fn datetime_text(d: Datetime) -> Seq<char>;

/// `to_string` of `toml::value::Datetime`: the date as year, month and day,
/// the time of day, and the offset, each where the timestamp has it. The
/// contract gives the result its name. An offset of `i16::MIN` minutes is
/// left out: negating it overflows.
#[verifier::external_body]
fn render(d: &Datetime) -> (s: String)
    requires
        offset_renders(d.offset),
    ensures
        s@ == datetime_text(*d),
{
    let date = d.date.map(|x| toml::value::Date { year: x.year, month: x.month, day: x.day });
    let time = d.time.map(
        |x| toml::value::Time { hour: x.hour, minute: x.minute, second: x.second, nanosecond: x.nanosecond },
    );
    let offset = d.offset.map(
        |x| match x {
            Offset::Z => toml::value::Offset::Z,
            Offset::Custom { minutes } => toml::value::Offset::Custom { minutes },
        },
    );
    toml::value::Datetime { date, time, offset }.to_string()
}

impl Datetime {
    /// The text of this timestamp.
    pub fn text(&self) -> (s: String)
        ensures
            s@ == datetime_text(*self),
    {
        proof {
            use_type_invariant(self);
        }
        render(self)
    }
}

} // verus!
