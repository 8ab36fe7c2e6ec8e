use vstd::prelude::*;

verus! {

/// A 128-bit cell identifier.
#[derive(Clone, Copy, Debug, PartialEq, Eq, Structural, Hash)]
pub struct Id {
    pub higher: u64,
    pub lower: u64,
}

/// The reserved sentinel id: "no cell".
pub open spec fn unit_id_spec() -> Id {
    Id { higher: 0, lower: 0 }
}

impl Id {
    pub fn new(higher: u64, lower: u64) -> (r: Id)
        ensures
            r.higher == higher,
            r.lower == lower,
    {
        Id { higher, lower }
    }

    pub fn unit_id() -> (r: Id)
        ensures
            r == unit_id_spec(),
    {
        Id { higher: 0, lower: 0 }
    }

    pub fn is_unit(&self) -> (r: bool)
        ensures
            r == (*self == unit_id_spec()),
    {
        self.higher == 0 && self.lower == 0
    }
}

pub const TYPE_BOOL: u32 = 1;
pub const TYPE_I64: u32 = 2;
pub const TYPE_U32: u32 = 3;
pub const TYPE_U64: u32 = 4;
pub const TYPE_STRING: u32 = 5;
pub const TYPE_ID: u32 = 6;

/// A field value stored in a cell body.
#[derive(Debug)]
pub enum Value {
    Null,
    Bool(bool),
    I64(i64),
    U32(u32),
    U64(u64),
    Str(String),
    Id(Id),
}

/// The type id of a value; `Null` has none.
pub open spec fn value_type(v: Value) -> Option<u32> {
    match v {
        Value::Null => None,
        Value::Bool(_) => Some(TYPE_BOOL),
        Value::I64(_) => Some(TYPE_I64),
        Value::U32(_) => Some(TYPE_U32),
        Value::U64(_) => Some(TYPE_U64),
        Value::Str(_) => Some(TYPE_STRING),
        Value::Id(_) => Some(TYPE_ID),
    }
}

impl Value {
    /// An exact copy of this value.
    pub fn copy(&self) -> (r: Value)
        ensures
            r == *self,
    {
        match self {
            Value::Null => Value::Null,
            Value::Bool(b) => Value::Bool(*b),
            Value::I64(i) => Value::I64(*i),
            Value::U32(i) => Value::U32(*i),
            Value::U64(i) => Value::U64(*i),
            Value::Str(s) => Value::Str(s.clone()),
            Value::Id(i) => Value::Id(*i),
        }
    }

    pub fn type_id(&self) -> (r: Option<u32>)
        ensures
            r == value_type(*self),
    {
        match self {
            Value::Null => None,
            Value::Bool(_) => Some(TYPE_BOOL),
            Value::I64(_) => Some(TYPE_I64),
            Value::U32(_) => Some(TYPE_U32),
            Value::U64(_) => Some(TYPE_U64),
            Value::Str(_) => Some(TYPE_STRING),
            Value::Id(_) => Some(TYPE_ID),
        }
    }
}

/// A cell body: field-id / value pairs; a later pair for a field shadows
/// an earlier one.
pub type Body = Vec<(u64, Value)>;

/// The value a body holds for field `k`: that of the last pair naming `k`.
pub open spec fn field_of(s: Seq<(u64, Value)>, k: u64) -> Option<Value>
    decreases s.len(),
{
    if s.len() == 0 {
        None
    } else if s.last().0 == k {
        Some(s.last().1)
    } else {
        field_of(s.drop_last(), k)
    }
}

/// The value `body` holds for field `k`, copied out.
pub fn get_field(body: &Body, k: u64) -> (r: Option<Value>)
    ensures
        r == field_of(body@, k),
{
    let mut i: usize = body.len();
    assert(body@.take(i as int) =~= body@);
    while i > 0
        invariant
            i <= body@.len(),
            field_of(body@.take(i as int), k) == field_of(body@, k),
        decreases i,
    {
        assert(body@.take(i as int).drop_last() =~= body@.take(i - 1));
        if body[i - 1].0 == k {
            return Some(body[i - 1].1.copy());
        }
        i = i - 1;
    }
    assert(body@.take(0).len() == 0);
    None
}

/// Sets field `k` of `body` to `v`.
pub fn insert_key_id(body: &mut Body, k: u64, v: Value)
    ensures
        final(body)@ == old(body)@.push((k, v)),
        forall|j: u64| #[trigger] field_of(final(body)@, j) == if j == k {
            Some(v)
        } else {
            field_of(old(body)@, j)
        },
{
    body.push((k, v));
    assert(final(body)@.drop_last() =~= old(body)@);
}

/// An exact copy of a body.
pub fn copy_body(body: &Body) -> (r: Body)
    ensures
        r@ == body@,
{
    let mut r: Body = Vec::new();
    let mut i: usize = 0;
    while i < body.len()
        invariant
            i <= body@.len(),
            r@ == body@.take(i as int),
        decreases body@.len() - i,
    {
        r.push((body[i].0, body[i].1.copy()));
        i = i + 1;
        assert(r@ =~= body@.take(i as int));
    }
    assert(body@.take(body@.len() as int) =~= body@);
    r
}

} // verus!
