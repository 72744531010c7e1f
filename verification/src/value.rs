//! Dynamically typed field values.
//!
//! Every field of a structure stores a [`Value`]: a tagged union over a
//! small set of native scalar and string types. A value can be cloned,
//! compared for equality, and converted to and from the native types;
//! typed retrieval goes through the [`ValueType`] trait and fails
//! safely (returns `None`) on a type mismatch instead of crashing.

use vstd::prelude::*;

verus! {

/// Mathematical model of a dynamically typed value: the runtime type
/// tag together with the payload, strings abstracted to their
/// character sequences.
pub enum ValueModel {
    I32(i32),
    U32(u32),
    Bool(bool),
    Str(Seq<char>),
}

/// Runtime type tag of a [`Value`].
#[derive(Clone, Copy, PartialEq, Eq, Structural, Debug)]
pub enum ValueKind {
    I32,
    U32,
    Bool,
    Str,
}

/// The runtime type tag of a value model.
pub open spec fn kind_of(m: ValueModel) -> ValueKind {
    match m {
        ValueModel::I32(_) => ValueKind::I32,
        ValueModel::U32(_) => ValueKind::U32,
        ValueModel::Bool(_) => ValueKind::Bool,
        ValueModel::Str(_) => ValueKind::Str,
    }
}

/// A dynamically typed value as stored in a structure field.
#[derive(Debug)]
pub enum Value {
    I32(i32),
    U32(u32),
    Bool(bool),
    Str(String),
}

impl View for Value {
    type V = ValueModel;

    open spec fn view(&self) -> ValueModel {
        match self {
            Value::I32(i) => ValueModel::I32(*i),
            Value::U32(u) => ValueModel::U32(*u),
            Value::Bool(b) => ValueModel::Bool(*b),
            Value::Str(s) => ValueModel::Str(s@),
        }
    }
}

impl Value {
    /// The runtime type tag of this value.
    pub fn kind(&self) -> (k: ValueKind)
        ensures
            k == kind_of(self@),
    {
        match self {
            Value::I32(_) => ValueKind::I32,
            Value::U32(_) => ValueKind::U32,
            Value::Bool(_) => ValueKind::Bool,
            Value::Str(_) => ValueKind::Str,
        }
    }
}

impl Clone for Value {
    /// Cloning preserves the value exactly (a deep copy for strings).
    fn clone(&self) -> (r: Self)
        ensures
            r@ == self@,
    {
        match self {
            Value::I32(i) => Value::I32(*i),
            Value::U32(u) => Value::U32(*u),
            Value::Bool(b) => Value::Bool(*b),
            Value::Str(s) => Value::Str(s.clone()),
        }
    }
}

impl PartialEq for Value {
    /// Two values are equal when their type tags and payloads agree.
    fn eq(&self, other: &Value) -> (r: bool) {
        match self {
            Value::I32(a) => match other {
                Value::I32(b) => *a == *b,
                _ => false,
            },
            Value::U32(a) => match other {
                Value::U32(b) => *a == *b,
                _ => false,
            },
            Value::Bool(a) => match other {
                Value::Bool(b) => *a == *b,
                _ => false,
            },
            Value::Str(a) => match other {
                Value::Str(b) => *a == *b,
                _ => false,
            },
        }
    }
}

impl vstd::std_specs::cmp::PartialEqSpecImpl for Value {
    open spec fn obeys_eq_spec() -> bool {
        true
    }

    open spec fn eq_spec(&self, other: &Value) -> bool {
        self@ == other@
    }
}

impl Eq for Value {}

impl From<i32> for Value {
    fn from(v: i32) -> (r: Value) {
        Value::I32(v)
    }
}

impl vstd::std_specs::convert::FromSpecImpl<i32> for Value {
    open spec fn obeys_from_spec() -> bool {
        true
    }

    open spec fn from_spec(v: i32) -> Value {
        Value::I32(v)
    }
}

impl From<u32> for Value {
    fn from(v: u32) -> (r: Value) {
        Value::U32(v)
    }
}

impl vstd::std_specs::convert::FromSpecImpl<u32> for Value {
    open spec fn obeys_from_spec() -> bool {
        true
    }

    open spec fn from_spec(v: u32) -> Value {
        Value::U32(v)
    }
}

impl From<bool> for Value {
    fn from(v: bool) -> (r: Value) {
        Value::Bool(v)
    }
}

impl vstd::std_specs::convert::FromSpecImpl<bool> for Value {
    open spec fn obeys_from_spec() -> bool {
        true
    }

    open spec fn from_spec(v: bool) -> Value {
        Value::Bool(v)
    }
}

impl From<String> for Value {
    fn from(v: String) -> (r: Value) {
        Value::Str(v)
    }
}

impl vstd::std_specs::convert::FromSpecImpl<String> for Value {
    open spec fn obeys_from_spec() -> bool {
        true
    }

    open spec fn from_spec(v: String) -> Value {
        Value::Str(v)
    }
}

/// A native type that a typed retrieval can produce from a [`Value`].
///
/// `matches_model` says which stored values carry this type's tag;
/// `models` relates a produced native value to the stored model.
pub trait ValueType: Sized {
    spec fn matches_model(m: ValueModel) -> bool;

    spec fn models(&self, m: ValueModel) -> bool;

    /// Typed extraction: succeeds exactly when the stored value's
    /// runtime type tag matches this type.
    fn try_from_value(v: &Value) -> (r: Option<Self>)
        ensures
            r is Some <==> Self::matches_model(v@),
            r is Some ==> r->0.models(v@),
    ;
}

impl ValueType for i32 {
    open spec fn matches_model(m: ValueModel) -> bool {
        m is I32
    }

    open spec fn models(&self, m: ValueModel) -> bool {
        m == ValueModel::I32(*self)
    }

    fn try_from_value(v: &Value) -> (r: Option<i32>) {
        match v {
            Value::I32(i) => Some(*i),
            _ => None,
        }
    }
}

impl ValueType for u32 {
    open spec fn matches_model(m: ValueModel) -> bool {
        m is U32
    }

    open spec fn models(&self, m: ValueModel) -> bool {
        m == ValueModel::U32(*self)
    }

    fn try_from_value(v: &Value) -> (r: Option<u32>) {
        match v {
            Value::U32(u) => Some(*u),
            _ => None,
        }
    }
}

impl ValueType for bool {
    open spec fn matches_model(m: ValueModel) -> bool {
        m is Bool
    }

    open spec fn models(&self, m: ValueModel) -> bool {
        m == ValueModel::Bool(*self)
    }

    fn try_from_value(v: &Value) -> (r: Option<bool>) {
        match v {
            Value::Bool(b) => Some(*b),
            _ => None,
        }
    }
}

impl ValueType for String {
    open spec fn matches_model(m: ValueModel) -> bool {
        m is Str
    }

    open spec fn models(&self, m: ValueModel) -> bool {
        m == ValueModel::Str(self@)
    }

    fn try_from_value(v: &Value) -> (r: Option<String>) {
        match v {
            Value::Str(s) => Some(s.clone()),
            _ => None,
        }
    }
}

} // verus!
