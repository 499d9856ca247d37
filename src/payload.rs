//! Payload values and the typed access to them.
//!
//! Every value that the store keeps is a [`Value`]; the payload kind of a
//! value is the partition that it lives in. A type that implements
//! [`Payload`] names one kind and converts between itself and the values
//! of that kind, so that a lookup with the wrong type finds nothing.
use vstd::prelude::*;

verus! {

/// A stored payload, tagged by its kind.
pub enum Value {
    Text(String),
    Unsigned(u64),
    Signed(i64),
    Flag(bool),
}

/// Kind of text payloads.
pub const KIND_TEXT: u64 = 1;

/// Kind of unsigned integer payloads.
pub const KIND_UNSIGNED: u64 = 2;

/// Kind of signed integer payloads.
pub const KIND_SIGNED: u64 = 3;

/// Kind of boolean payloads.
pub const KIND_FLAG: u64 = 4;

impl Value {
    /// The partition a value belongs to.
    pub open spec fn kind(self) -> u64 {
        match self {
            Value::Text(_) => KIND_TEXT,
            Value::Unsigned(_) => KIND_UNSIGNED,
            Value::Signed(_) => KIND_SIGNED,
            Value::Flag(_) => KIND_FLAG,
        }
    }
}

/// A concrete payload type: one kind, and the conversions to and from it.
pub trait Payload: Sized {
    /// The kind that values of this type are stored under.
    spec fn kind() -> u64;

    /// The stored form of a payload.
    spec fn to_value(self) -> Value;

    /// The payload that a stored value holds, when it is of this type.
    spec fn from_value(v: Value) -> Option<Self>;

    /// Storing a payload and reading it back gives the same payload.
    proof fn lemma_round_trip(x: Self)
        ensures
            Self::from_value(x.to_value()) == Some(x),
            x.to_value().kind() == Self::kind(),
    ;

    /// A stored value can be read as this type exactly when it is of this kind.
    proof fn lemma_kind(v: Value)
        ensures
            Self::from_value(v) is Some <==> v.kind() == Self::kind(),
    ;

    /// The kind of this type, at run time.
    fn type_kind() -> (r: u64)
        ensures
            r == Self::kind(),
    ;

    /// Wraps the payload for storage.
    fn into_value(self) -> (v: Value)
        ensures
            v == self.to_value(),
    ;

    /// Unwraps a stored value of this type.
    fn from_owned(v: Value) -> (r: Option<Self>)
        ensures
            r == Self::from_value(v),
    ;

    /// Borrows the payload of a stored value of this type.
    fn from_ref(v: &Value) -> (r: Option<&Self>)
        ensures
            match r {
                Some(x) => Self::from_value(*v) == Some(*x),
                None => Self::from_value(*v) is None,
            },
    ;

    /// Borrows the payload of a stored value of this type exclusively; what
    /// is written through it is what the value holds afterwards.
    fn from_mut(v: &mut Value) -> (r: Option<&mut Self>)
        ensures
            r is Some ==> Self::from_value(*old(v)) == Some(*r.unwrap()) && *final(v)
                == (*final(r.unwrap())).to_value() && (*final(v)).kind() == Self::kind(),
            r is None ==> Self::from_value(*old(v)) is None && *final(v) == *old(v),
    ;
}

impl Payload for String {
    open spec fn kind() -> u64 {
        KIND_TEXT
    }

    open spec fn to_value(self) -> Value {
        Value::Text(self)
    }

    open spec fn from_value(v: Value) -> Option<Self> {
        match v {
            Value::Text(s) => Some(s),
            _ => None,
        }
    }

    proof fn lemma_round_trip(x: Self) {
    }

    proof fn lemma_kind(v: Value) {
    }

    fn type_kind() -> (r: u64) {
        KIND_TEXT
    }

    fn into_value(self) -> (v: Value) {
        Value::Text(self)
    }

    fn from_owned(v: Value) -> (r: Option<Self>) {
        match v {
            Value::Text(s) => Some(s),
            _ => None,
        }
    }

    fn from_ref(v: &Value) -> (r: Option<&Self>) {
        match v {
            Value::Text(s) => Some(s),
            _ => None,
        }
    }

    fn from_mut(v: &mut Value) -> (r: Option<&mut Self>) {
        match v {
            Value::Text(s) => Some(s),
            _ => None,
        }
    }
}

impl Payload for u64 {
    open spec fn kind() -> u64 {
        KIND_UNSIGNED
    }

    open spec fn to_value(self) -> Value {
        Value::Unsigned(self)
    }

    open spec fn from_value(v: Value) -> Option<Self> {
        match v {
            Value::Unsigned(x) => Some(x),
            _ => None,
        }
    }

    proof fn lemma_round_trip(x: Self) {
    }

    proof fn lemma_kind(v: Value) {
    }

    fn type_kind() -> (r: u64) {
        KIND_UNSIGNED
    }

    fn into_value(self) -> (v: Value) {
        Value::Unsigned(self)
    }

    fn from_owned(v: Value) -> (r: Option<Self>) {
        match v {
            Value::Unsigned(x) => Some(x),
            _ => None,
        }
    }

    fn from_ref(v: &Value) -> (r: Option<&Self>) {
        match v {
            Value::Unsigned(x) => Some(x),
            _ => None,
        }
    }

    fn from_mut(v: &mut Value) -> (r: Option<&mut Self>) {
        match v {
            Value::Unsigned(x) => Some(x),
            _ => None,
        }
    }
}

impl Payload for i64 {
    open spec fn kind() -> u64 {
        KIND_SIGNED
    }

    open spec fn to_value(self) -> Value {
        Value::Signed(self)
    }

    open spec fn from_value(v: Value) -> Option<Self> {
        match v {
            Value::Signed(x) => Some(x),
            _ => None,
        }
    }

    proof fn lemma_round_trip(x: Self) {
    }

    proof fn lemma_kind(v: Value) {
    }

    fn type_kind() -> (r: u64) {
        KIND_SIGNED
    }

    fn into_value(self) -> (v: Value) {
        Value::Signed(self)
    }

    fn from_owned(v: Value) -> (r: Option<Self>) {
        match v {
            Value::Signed(x) => Some(x),
            _ => None,
        }
    }

    fn from_ref(v: &Value) -> (r: Option<&Self>) {
        match v {
            Value::Signed(x) => Some(x),
            _ => None,
        }
    }

    fn from_mut(v: &mut Value) -> (r: Option<&mut Self>) {
        match v {
            Value::Signed(x) => Some(x),
            _ => None,
        }
    }
}

impl Payload for bool {
    open spec fn kind() -> u64 {
        KIND_FLAG
    }

    open spec fn to_value(self) -> Value {
        Value::Flag(self)
    }

    open spec fn from_value(v: Value) -> Option<Self> {
        match v {
            Value::Flag(x) => Some(x),
            _ => None,
        }
    }

    proof fn lemma_round_trip(x: Self) {
    }

    proof fn lemma_kind(v: Value) {
    }

    fn type_kind() -> (r: u64) {
        KIND_FLAG
    }

    fn into_value(self) -> (v: Value) {
        Value::Flag(self)
    }

    fn from_owned(v: Value) -> (r: Option<Self>) {
        match v {
            Value::Flag(x) => Some(x),
            _ => None,
        }
    }

    fn from_ref(v: &Value) -> (r: Option<&Self>) {
        match v {
            Value::Flag(x) => Some(x),
            _ => None,
        }
    }

    fn from_mut(v: &mut Value) -> (r: Option<&mut Self>) {
        match v {
            Value::Flag(x) => Some(x),
            _ => None,
        }
    }
}

} // verus!
