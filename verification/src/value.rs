use vstd::prelude::*;

use crate::time::{Duration, Time};

verus! {

/// The mathematical content of a [`Value`]. 32 and 64 bit floating-point
/// numbers are carried as their IEEE-754 bit patterns and never interpreted.
pub enum ValueV {
    Bool(bool),
    I8(i8),
    I16(i16),
    I32(i32),
    I64(i64),
    U8(u8),
    U16(u16),
    U32(u32),
    U64(u64),
    F32(u32),
    F64(u64),
    String(Seq<char>),
    Time(Time),
    Duration(Duration),
    Array(Seq<ValueV>),
    Message(Seq<(Seq<char>, ValueV)>),
}

/// One named field of a decoded message.
#[derive(Debug)]
pub struct FieldValue {
    /// The field's name.
    pub name: String,
    /// The field's decoded value.
    pub value: Value,
}

/// A decoded message: field names paired with their values, in field order,
/// each name at most once.
pub type MessageValue = Vec<FieldValue>;

/// One decoded value, or a whole decoded message.
#[derive(Debug)]
pub enum Value {
    /// Represents `bool`.
    Bool(bool),
    /// Represents `int8` or `byte`.
    I8(i8),
    /// Represents `int16`.
    I16(i16),
    /// Represents `int32`.
    I32(i32),
    /// Represents `int64`.
    I64(i64),
    /// Represents `uint8` or `char`.
    U8(u8),
    /// Represents `uint16`.
    U16(u16),
    /// Represents `uint32`.
    U32(u32),
    /// Represents `uint64`.
    U64(u64),
    /// Represents `float32`, as the IEEE-754 bit pattern of the number.
    F32(u32),
    /// Represents `float64`, as the IEEE-754 bit pattern of the number.
    F64(u64),
    /// Represents `string`.
    String(String),
    /// Represents `time`.
    Time(Time),
    /// Represents `duration`.
    Duration(Duration),
    /// Represents `some_type[]` or `some_type[length]`, and also an embedded
    /// message that has not been mapped to its field names yet.
    Array(Vec<Value>),
    /// Represents an embedded message, mapped to its field names.
    Message(MessageValue),
}

/// The view of a [`Value`], structurally.
pub open spec fn value_view(v: Value) -> ValueV
    decreases v,
{
    match v {
        Value::Bool(b) => ValueV::Bool(b),
        Value::I8(x) => ValueV::I8(x),
        Value::I16(x) => ValueV::I16(x),
        Value::I32(x) => ValueV::I32(x),
        Value::I64(x) => ValueV::I64(x),
        Value::U8(x) => ValueV::U8(x),
        Value::U16(x) => ValueV::U16(x),
        Value::U32(x) => ValueV::U32(x),
        Value::U64(x) => ValueV::U64(x),
        Value::F32(x) => ValueV::F32(x),
        Value::F64(x) => ValueV::F64(x),
        Value::String(s) => ValueV::String(s@),
        Value::Time(t) => ValueV::Time(t),
        Value::Duration(d) => ValueV::Duration(d),
        Value::Array(items) => ValueV::Array(values_view(items@)),
        Value::Message(entries) => ValueV::Message(entries_view(entries@)),
    }
}

/// The views of a sequence of values, elementwise.
pub open spec fn values_view(s: Seq<Value>) -> Seq<ValueV>
    decreases s,
{
    if s.len() == 0 {
        Seq::empty()
    } else {
        seq![value_view(s[0])] + values_view(s.drop_first())
    }
}

/// The views of a sequence of named fields, elementwise.
pub open spec fn entries_view(s: Seq<FieldValue>) -> Seq<(Seq<char>, ValueV)>
    decreases s,
{
    if s.len() == 0 {
        Seq::empty()
    } else {
        seq![(s[0].name@, value_view(s[0].value))] + entries_view(s.drop_first())
    }
}

pub proof fn lemma_values_view(s: Seq<Value>)
    ensures
        #[trigger] values_view(s).len() == s.len(),
        forall|i: int| 0 <= i < s.len() ==> values_view(s)[i] == value_view(#[trigger] s[i]),
    decreases s,
{
    if s.len() > 0 {
        let t = s.drop_first();
        lemma_values_view(t);
        assert forall|i: int| 0 <= i < s.len() implies values_view(s)[i] == value_view(
            #[trigger] s[i],
        ) by {
            if i > 0 {
                assert(t[i - 1] == s[i]);
                assert(values_view(s)[i] == values_view(t)[i - 1]);
            }
        }
    }
}

pub proof fn lemma_entries_view(s: Seq<FieldValue>)
    ensures
        #[trigger] entries_view(s).len() == s.len(),
        forall|i: int|
            0 <= i < s.len() ==> entries_view(s)[i] == (#[trigger] s[i].name@, value_view(
                s[i].value,
            )),
    decreases s,
{
    if s.len() > 0 {
        let t = s.drop_first();
        lemma_entries_view(t);
        assert forall|i: int| 0 <= i < s.len() implies entries_view(s)[i] == (
        #[trigger] s[i].name@,
        value_view(s[i].value),
        ) by {
            if i > 0 {
                assert(t[i - 1] == s[i]);
                assert(entries_view(s)[i] == entries_view(t)[i - 1]);
            }
        }
    }
}

impl View for Value {
    type V = ValueV;

    open spec fn view(&self) -> ValueV {
        value_view(*self)
    }
}

/// The view of a decoded message: names as character sequences, values as
/// their views, in order.
pub open spec fn message_value_view(m: MessageValue) -> Seq<(Seq<char>, ValueV)> {
    entries_view(m@)
}

/// Index of the entry named `name` in `m`, or `m.len()` if absent.
pub open spec fn field_index(m: Seq<(Seq<char>, ValueV)>, name: Seq<char>) -> int
    decreases m.len(),
{
    if m.len() == 0 {
        0
    } else if m[0].0 == name {
        0
    } else {
        1 + field_index(m.drop_first(), name)
    }
}

/// Value of the entry named `name` in `m`, if there is one.
pub open spec fn field_lookup(m: Seq<(Seq<char>, ValueV)>, name: Seq<char>) -> Option<ValueV> {
    if field_index(m, name) < m.len() {
        Some(m[field_index(m, name)].1)
    } else {
        None
    }
}

impl Value {
    /// The content if the value is a `bool`.
    pub fn as_bool(&self) -> (r: Option<bool>)
        ensures
            r == (match self@ {
                ValueV::Bool(b) => Some(b),
                _ => None::<bool>,
            }),
    {
        match self {
            Value::Bool(b) => Some(*b),
            _ => None,
        }
    }

    /// The content if the value is an `i8`.
    pub fn as_i8(&self) -> (r: Option<i8>)
        ensures
            r == (match self@ {
                ValueV::I8(x) => Some(x),
                _ => None::<i8>,
            }),
    {
        match self {
            Value::I8(x) => Some(*x),
            _ => None,
        }
    }

    /// The content if the value is an `i16`.
    pub fn as_i16(&self) -> (r: Option<i16>)
        ensures
            r == (match self@ {
                ValueV::I16(x) => Some(x),
                _ => None::<i16>,
            }),
    {
        match self {
            Value::I16(x) => Some(*x),
            _ => None,
        }
    }

    /// The content if the value is an `i32`.
    pub fn as_i32(&self) -> (r: Option<i32>)
        ensures
            r == (match self@ {
                ValueV::I32(x) => Some(x),
                _ => None::<i32>,
            }),
    {
        match self {
            Value::I32(x) => Some(*x),
            _ => None,
        }
    }

    /// The content if the value is an `i64`.
    pub fn as_i64(&self) -> (r: Option<i64>)
        ensures
            r == (match self@ {
                ValueV::I64(x) => Some(x),
                _ => None::<i64>,
            }),
    {
        match self {
            Value::I64(x) => Some(*x),
            _ => None,
        }
    }

    /// The content if the value is a `u8`.
    pub fn as_u8(&self) -> (r: Option<u8>)
        ensures
            r == (match self@ {
                ValueV::U8(x) => Some(x),
                _ => None::<u8>,
            }),
    {
        match self {
            Value::U8(x) => Some(*x),
            _ => None,
        }
    }

    /// The content if the value is a `u16`.
    pub fn as_u16(&self) -> (r: Option<u16>)
        ensures
            r == (match self@ {
                ValueV::U16(x) => Some(x),
                _ => None::<u16>,
            }),
    {
        match self {
            Value::U16(x) => Some(*x),
            _ => None,
        }
    }

    /// The content if the value is a `u32`.
    pub fn as_u32(&self) -> (r: Option<u32>)
        ensures
            r == (match self@ {
                ValueV::U32(x) => Some(x),
                _ => None::<u32>,
            }),
    {
        match self {
            Value::U32(x) => Some(*x),
            _ => None,
        }
    }

    /// The content if the value is a `u64`.
    pub fn as_u64(&self) -> (r: Option<u64>)
        ensures
            r == (match self@ {
                ValueV::U64(x) => Some(x),
                _ => None::<u64>,
            }),
    {
        match self {
            Value::U64(x) => Some(*x),
            _ => None,
        }
    }

    /// The IEEE-754 bit pattern if the value is a `float32`.
    pub fn as_f32(&self) -> (r: Option<u32>)
        ensures
            r == (match self@ {
                ValueV::F32(x) => Some(x),
                _ => None::<u32>,
            }),
    {
        match self {
            Value::F32(x) => Some(*x),
            _ => None,
        }
    }

    /// The IEEE-754 bit pattern if the value is a `float64`.
    pub fn as_f64(&self) -> (r: Option<u64>)
        ensures
            r == (match self@ {
                ValueV::F64(x) => Some(x),
                _ => None::<u64>,
            }),
    {
        match self {
            Value::F64(x) => Some(*x),
            _ => None,
        }
    }

    /// The content if the value is a string.
    pub fn as_str(&self) -> (r: Option<&str>)
        ensures
            match r {
                Some(s) => self@ == ValueV::String(s@),
                None => !(self@ is String),
            },
    {
        match self {
            Value::String(s) => Some(s.as_str()),
            _ => None,
        }
    }

    /// The content if the value is a string, by value.
    pub fn try_into_string(self) -> (r: Option<String>)
        ensures
            match r {
                Some(s) => self@ == ValueV::String(s@),
                None => !(self@ is String),
            },
    {
        match self {
            Value::String(s) => Some(s),
            _ => None,
        }
    }

    /// The content if the value is a time.
    pub fn as_time(&self) -> (r: Option<Time>)
        ensures
            r == (match self@ {
                ValueV::Time(t) => Some(t),
                _ => None::<Time>,
            }),
    {
        match self {
            Value::Time(t) => Some(*t),
            _ => None,
        }
    }

    /// The content if the value is a duration.
    pub fn as_duration(&self) -> (r: Option<Duration>)
        ensures
            r == (match self@ {
                ValueV::Duration(d) => Some(d),
                _ => None::<Duration>,
            }),
    {
        match self {
            Value::Duration(d) => Some(*d),
            _ => None,
        }
    }

    /// The items if the value is an array.
    pub fn as_slice(&self) -> (r: Option<&Vec<Value>>)
        ensures
            match r {
                Some(items) => self@ == ValueV::Array(values_view(items@)),
                None => !(self@ is Array),
            },
    {
        match self {
            Value::Array(items) => Some(items),
            _ => None,
        }
    }

    /// The items if the value is an array, by value.
    pub fn try_into_vec(self) -> (r: Option<Vec<Value>>)
        ensures
            match r {
                Some(items) => self@ == ValueV::Array(values_view(items@)),
                None => !(self@ is Array),
            },
    {
        match self {
            Value::Array(items) => Some(items),
            _ => None,
        }
    }

    /// The named fields if the value is a mapped message.
    pub fn as_map(&self) -> (r: Option<&MessageValue>)
        ensures
            match r {
                Some(m) => self@ == ValueV::Message(message_value_view(*m)),
                None => !(self@ is Message),
            },
    {
        match self {
            Value::Message(m) => Some(m),
            _ => None,
        }
    }

    /// The named fields if the value is a mapped message, by value.
    pub fn try_into_map(self) -> (r: Option<MessageValue>)
        ensures
            match r {
                Some(m) => self@ == ValueV::Message(message_value_view(m)),
                None => !(self@ is Message),
            },
    {
        match self {
            Value::Message(m) => Some(m),
            _ => None,
        }
    }
}

/// `m` with the entry for `name` set to `v`: the first entry of that name is
/// replaced, or a new entry appended.
pub open spec fn field_upsert(
    m: Seq<(Seq<char>, ValueV)>,
    name: Seq<char>,
    v: ValueV,
) -> Seq<(Seq<char>, ValueV)> {
    if field_index(m, name) < m.len() {
        m.update(field_index(m, name), (name, v))
    } else {
        m.push((name, v))
    }
}

/// Sets the field `name` of a decoded message to `value`, replacing an
/// earlier entry of that name.
#[verifier::loop_isolation(false)]
pub fn message_upsert(m: &mut MessageValue, name: String, value: Value)
    ensures
        message_value_view(*final(m)) == field_upsert(message_value_view(*old(m)), name@, value@),
{
    let ghost mv = message_value_view(*m);
    proof {
        lemma_entries_view(m@);
    }
    let n = m.len();
    let mut i: usize = 0;
    while i < n
        invariant
            0 <= i <= n,
            n == m@.len(),
            mv == message_value_view(*m),
            mv.len() == n,
            forall|j: int|
                0 <= j < n ==> mv[j] == (#[trigger] m@[j].name@, value_view(m@[j].value)),
            forall|j: int| 0 <= j < i ==> mv[j].0 != name@,
        decreases n - i,
    {
        if crate::text::str_eq(m[i].name.as_str(), name.as_str()) {
            proof {
                lemma_field_index_is(mv, name@, i as int);
            }
            let ghost before = m@;
            let ghost namev = name@;
            let ghost valuev = value@;
            m.set(i, FieldValue { name, value });
            proof {
                lemma_entries_view(m@);
                assert forall|k: int|
                    0 <= k < n implies message_value_view(*m)[k] == field_upsert(
                    mv,
                    namev,
                    valuev,
                )[k] by {
                    assert(message_value_view(*m)[k] == (m@[k].name@, value_view(m@[k].value)));
                    if k != i {
                        assert(m@[k] == before[k]);
                        assert(mv[k] == (before[k].name@, value_view(before[k].value)));
                    } else {
                        assert(m@[k].name@ == namev && m@[k].value@ == valuev);
                    }
                }
                assert(message_value_view(*m) =~= field_upsert(mv, namev, valuev));
            }
            return ;
        }
        i = i + 1;
    }
    proof {
        lemma_field_index_is(mv, name@, n as int);
    }
    let ghost before = m@;
    let ghost namev = name@;
    let ghost valuev = value@;
    m.push(FieldValue { name, value });
    proof {
        lemma_entries_view(m@);
        assert forall|k: int|
            0 <= k < m@.len() implies message_value_view(*m)[k] == field_upsert(
            mv,
            namev,
            valuev,
        )[k] by {
            assert(message_value_view(*m)[k] == (m@[k].name@, value_view(m@[k].value)));
            if k < n {
                assert(m@[k] == before[k]);
                assert(mv[k] == (before[k].name@, value_view(before[k].value)));
            } else {
                assert(m@[k].name@ == namev && m@[k].value@ == valuev);
            }
        }
        assert(message_value_view(*m) =~= field_upsert(mv, namev, valuev));
    }
}

/// A copy of a value, equal in content.
#[verifier::loop_isolation(false)]
pub fn clone_value(v: &Value) -> (r: Value)
    ensures
        r@ == v@,
    decreases *v,
{
    broadcast use vstd::std_specs::vec::axiom_vec_index_decreases;

    match v {
        Value::Bool(b) => Value::Bool(*b),
        Value::I8(x) => Value::I8(*x),
        Value::I16(x) => Value::I16(*x),
        Value::I32(x) => Value::I32(*x),
        Value::I64(x) => Value::I64(*x),
        Value::U8(x) => Value::U8(*x),
        Value::U16(x) => Value::U16(*x),
        Value::U32(x) => Value::U32(*x),
        Value::U64(x) => Value::U64(*x),
        Value::F32(x) => Value::F32(*x),
        Value::F64(x) => Value::F64(*x),
        Value::String(s) => Value::String(s.clone()),
        Value::Time(t) => Value::Time(*t),
        Value::Duration(d) => Value::Duration(*d),
        Value::Array(items) => {
            let n = items.len();
            let mut out: Vec<Value> = Vec::new();
            let mut i: usize = 0;
            while i < n
                invariant
                    0 <= i <= n,
                    n == items@.len(),
                    out@.len() == i,
                    forall|j: int| 0 <= j < i ==> out@[j]@ == items@[j]@,
                decreases n - i,
            {
                let c = clone_value(&items[i]);
                out.push(c);
                i = i + 1;
            }
            proof {
                lemma_values_view(out@);
                lemma_values_view(items@);
                assert forall|j: int| 0 <= j < n implies values_view(out@)[j] == values_view(
                    items@,
                )[j] by {
                    assert(values_view(out@)[j] == value_view(out@[j]));
                    assert(values_view(items@)[j] == value_view(items@[j]));
                }
                assert(values_view(out@) =~= values_view(items@));
            }
            Value::Array(out)
        },
        Value::Message(entries) => {
            let n = entries.len();
            let mut out: Vec<FieldValue> = Vec::new();
            let mut i: usize = 0;
            while i < n
                invariant
                    0 <= i <= n,
                    n == entries@.len(),
                    out@.len() == i,
                    forall|j: int|
                        0 <= j < i ==> out@[j].name@ == entries@[j].name@ && out@[j].value@
                            == entries@[j].value@,
                decreases n - i,
            {
                let c = clone_value(&entries[i].value);
                let name = entries[i].name.clone();
                out.push(FieldValue { name, value: c });
                i = i + 1;
            }
            proof {
                lemma_entries_view(out@);
                lemma_entries_view(entries@);
                assert forall|j: int| 0 <= j < n implies entries_view(out@)[j] == entries_view(
                    entries@,
                )[j] by {
                    assert(entries_view(out@)[j] == (out@[j].name@, value_view(out@[j].value)));
                    assert(entries_view(entries@)[j] == (
                        entries@[j].name@,
                        value_view(entries@[j].value),
                    ));
                }
                assert(entries_view(out@) =~= entries_view(entries@));
            }
            Value::Message(out)
        },
    }
}

/// Looks up a field of a decoded message by name.
pub fn message_field<'a>(m: &'a MessageValue, name: &str) -> (r: Option<&'a Value>)
    ensures
        match r {
            Some(v) => field_lookup(message_value_view(*m), name@) == Some(v@),
            None => field_lookup(message_value_view(*m), name@) is None,
        },
{
    let ghost mv = message_value_view(*m);
    proof {
        lemma_entries_view(m@);
    }
    let n = m.len();
    let mut i: usize = 0;
    while i < n
        invariant
            0 <= i <= n,
            n == m@.len(),
            mv == message_value_view(*m),
            mv.len() == n,
            forall|j: int|
                0 <= j < n ==> mv[j] == (#[trigger] m@[j].name@, value_view(m@[j].value)),
            forall|j: int| 0 <= j < i ==> mv[j].0 != name@,
        decreases n - i,
    {
        if crate::text::str_eq(m[i].name.as_str(), name) {
            proof {
                lemma_field_index_is(mv, name@, i as int);
            }
            return Some(&m[i].value);
        }
        i = i + 1;
    }
    proof {
        lemma_field_index_is(mv, name@, n as int);
    }
    None
}

pub proof fn lemma_field_index_is(m: Seq<(Seq<char>, ValueV)>, name: Seq<char>, k: int)
    requires
        0 <= k <= m.len(),
        forall|j: int| 0 <= j < k ==> m[j].0 != name,
        k < m.len() ==> m[k].0 == name,
    ensures
        field_index(m, name) == k,
    decreases m.len(),
{
    if m.len() == 0 {
    } else if m[0].0 == name {
        assert(k == 0);
    } else {
        assert(k >= 1);
        let t = m.drop_first();
        assert(forall|j: int| 0 <= j < k - 1 ==> t[j].0 != name);
        lemma_field_index_is(t, name, k - 1);
    }
}

} // verus!
