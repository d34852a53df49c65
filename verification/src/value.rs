//! Values, their types, and rows of them.

use vstd::prelude::*;

verus! {

/// The type of a value or of a column.
#[derive(Debug, Clone, Copy, PartialEq, Eq, Structural)]
pub enum TypeId {
    Int,
    Float,
    Bool,
    Str,
    DateTime,
    Uuid,
    Bytes,
    Json,
    Empty,
}

/// One value. A float is held as the bits of its IEEE 754 double, so that two
/// floats are the same value exactly when their bits agree. `Empty` is null.
#[derive(Debug, PartialEq, Eq)]
pub enum Value {
    Int(i64),
    Float(u64),
    Bool(bool),
    Str(String),
    DateTime(i64),
    Uuid([u8; 16]),
    Bytes(Vec<u8>),
    Json(Vec<u8>),
    Empty,
}

/// What a [`Value`] stands for.
pub enum ValueView {
    Int(i64),
    Float(u64),
    Bool(bool),
    Str(Seq<char>),
    DateTime(i64),
    Uuid(Seq<u8>),
    Bytes(Seq<u8>),
    Json(Seq<u8>),
    Empty,
}

impl ValueView {
    /// The type of the value.
    pub open spec fn type_id(self) -> TypeId {
        match self {
            ValueView::Int(_) => TypeId::Int,
            ValueView::Float(_) => TypeId::Float,
            ValueView::Bool(_) => TypeId::Bool,
            ValueView::Str(_) => TypeId::Str,
            ValueView::DateTime(_) => TypeId::DateTime,
            ValueView::Uuid(_) => TypeId::Uuid,
            ValueView::Bytes(_) => TypeId::Bytes,
            ValueView::Json(_) => TypeId::Json,
            ValueView::Empty => TypeId::Empty,
        }
    }
}

impl DeepView for Value {
    type V = ValueView;

    open spec fn deep_view(&self) -> ValueView {
        match self {
            Value::Int(n) => ValueView::Int(*n),
            Value::Float(bits) => ValueView::Float(*bits),
            Value::Bool(b) => ValueView::Bool(*b),
            Value::Str(s) => ValueView::Str(s@),
            Value::DateTime(n) => ValueView::DateTime(*n),
            Value::Uuid(u) => ValueView::Uuid(u@),
            Value::Bytes(b) => ValueView::Bytes(b@),
            Value::Json(b) => ValueView::Json(b@),
            Value::Empty => ValueView::Empty,
        }
    }
}

/// A row as mathematics: its values in column order.
pub type RowView = Seq<ValueView>;

fn bytes_equal(a: &Vec<u8>, b: &Vec<u8>) -> (same: bool)
    ensures
        same == (a@ == b@),
{
    if a.len() != b.len() {
        return false;
    }
    let mut i: usize = 0;
    while i < a.len()
        invariant
            i <= a.len(),
            a.len() == b.len(),
            forall|j: int| 0 <= j < i ==> a[j] == b[j],
        decreases a.len() - i,
    {
        if a[i] != b[i] {
            return false;
        }
        i = i + 1;
    }
    assert(a@ =~= b@);
    true
}

fn uuids_equal(a: &[u8; 16], b: &[u8; 16]) -> (same: bool)
    ensures
        same == (a@ == b@),
{
    let mut i: usize = 0;
    while i < 16
        invariant
            i <= 16,
            forall|j: int| 0 <= j < i ==> a[j] == b[j],
        decreases 16 - i,
    {
        if a[i] != b[i] {
            assert(a@[i as int] != b@[i as int]);
            return false;
        }
        i = i + 1;
    }
    assert(a@ =~= b@);
    true
}

fn clone_bytes(bytes: &Vec<u8>) -> (out: Vec<u8>)
    ensures
        out@ == bytes@,
{
    let mut out: Vec<u8> = Vec::new();
    let mut i: usize = 0;
    while i < bytes.len()
        invariant
            i <= bytes.len(),
            out@ == bytes@.take(i as int),
        decreases bytes.len() - i,
    {
        out.push(bytes[i]);
        assert(out@ =~= bytes@.take(i as int + 1));
        i = i + 1;
    }
    assert(bytes@.take(bytes.len() as int) =~= bytes@);
    out
}

impl Value {
    /// The type of this value.
    pub fn type_id(&self) -> (t: TypeId)
        ensures
            t == self.deep_view().type_id(),
    {
        match self {
            Value::Int(_) => TypeId::Int,
            Value::Float(_) => TypeId::Float,
            Value::Bool(_) => TypeId::Bool,
            Value::Str(_) => TypeId::Str,
            Value::DateTime(_) => TypeId::DateTime,
            Value::Uuid(_) => TypeId::Uuid,
            Value::Bytes(_) => TypeId::Bytes,
            Value::Json(_) => TypeId::Json,
            Value::Empty => TypeId::Empty,
        }
    }

    /// Whether this is null.
    pub fn is_empty(&self) -> (empty: bool)
        ensures
            empty == (self.deep_view() is Empty),
    {
        match self {
            Value::Empty => true,
            _ => false,
        }
    }

    /// Whether two values are the same: same type and same contents. An int
    /// is never the same as a float.
    pub fn same(&self, other: &Value) -> (same: bool)
        ensures
            same == (self.deep_view() == other.deep_view()),
    {
        match (self, other) {
            (Value::Int(a), Value::Int(b)) => *a == *b,
            (Value::Float(a), Value::Float(b)) => *a == *b,
            (Value::Bool(a), Value::Bool(b)) => *a == *b,
            (Value::Str(a), Value::Str(b)) => *a == *b,
            (Value::DateTime(a), Value::DateTime(b)) => *a == *b,
            (Value::Uuid(a), Value::Uuid(b)) => uuids_equal(a, b),
            (Value::Bytes(a), Value::Bytes(b)) => bytes_equal(a, b),
            (Value::Json(a), Value::Json(b)) => bytes_equal(a, b),
            (Value::Empty, Value::Empty) => true,
            _ => false,
        }
    }
}

impl Clone for Value {
    fn clone(&self) -> (copy: Self)
        ensures
            copy.deep_view() == self.deep_view(),
    {
        match self {
            Value::Int(n) => Value::Int(*n),
            Value::Float(bits) => Value::Float(*bits),
            Value::Bool(b) => Value::Bool(*b),
            Value::Str(s) => Value::Str(s.clone()),
            Value::DateTime(n) => Value::DateTime(*n),
            Value::Uuid(u) => Value::Uuid(*u),
            Value::Bytes(b) => Value::Bytes(clone_bytes(b)),
            Value::Json(b) => Value::Json(clone_bytes(b)),
            Value::Empty => Value::Empty,
        }
    }
}

/// A copy of `row`.
pub fn clone_row(row: &Vec<Value>) -> (copy: Vec<Value>)
    ensures
        copy.deep_view() == row.deep_view(),
        copy.len() == row.len(),
{
    let mut copy: Vec<Value> = Vec::new();
    let mut i: usize = 0;
    while i < row.len()
        invariant
            i <= row.len(),
            copy.len() == i,
            forall|j: int| 0 <= j < i ==> copy[j].deep_view() == row[j].deep_view(),
        decreases row.len() - i,
    {
        copy.push(row[i].clone());
        i = i + 1;
    }
    assert(copy.deep_view() =~= row.deep_view());
    copy
}

/// A copy of `rows`.
pub fn clone_rows(rows: &Vec<Vec<Value>>) -> (copy: Vec<Vec<Value>>)
    ensures
        copy.deep_view() == rows.deep_view(),
        copy.len() == rows.len(),
{
    let mut copy: Vec<Vec<Value>> = Vec::new();
    let mut i: usize = 0;
    while i < rows.len()
        invariant
            i <= rows.len(),
            copy.len() == i,
            forall|j: int| 0 <= j < i ==> copy[j].deep_view() == rows[j].deep_view(),
        decreases rows.len() - i,
    {
        copy.push(clone_row(&rows[i]));
        i = i + 1;
    }
    assert(copy.deep_view() =~= rows.deep_view());
    copy
}

/// Whether two rows hold the same values.
pub fn rows_same(a: &Vec<Value>, b: &Vec<Value>) -> (same: bool)
    ensures
        same == (a.deep_view() == b.deep_view()),
{
    if a.len() != b.len() {
        assert(a.deep_view().len() != b.deep_view().len());
        return false;
    }
    let mut i: usize = 0;
    while i < a.len()
        invariant
            i <= a.len(),
            a.len() == b.len(),
            forall|j: int| 0 <= j < i ==> a[j].deep_view() == b[j].deep_view(),
        decreases a.len() - i,
    {
        if !a[i].same(&b[i]) {
            assert(a.deep_view()[i as int] != b.deep_view()[i as int]);
            return false;
        }
        i = i + 1;
    }
    assert(a.deep_view() =~= b.deep_view());
    true
}

} // verus!
