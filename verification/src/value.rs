//! The tagged runtime value, its type tag, and the typed extraction
//! primitive that every operator in the evaluator composes.

use vstd::prelude::*;

verus! {

/// A runtime value: a string of bytes, a binary64 number carried as its
/// bit pattern, a boolean, or nil.
#[derive(Debug, Clone, PartialEq)]
pub enum Value {
    String(Vec<u8>),
    Number(u64),
    Boolean(bool),
    Nil,
}

/// The mathematical model of a [`Value`]: the string is a byte sequence,
/// the number its 64-bit encoding.
pub enum ValueS {
    Str(Seq<u8>),
    Num(u64),
    Bool(bool),
    Nil,
}

impl View for Value {
    type V = ValueS;

    open spec fn view(&self) -> ValueS {
        match self {
            Value::String(s) => ValueS::Str(s@),
            Value::Number(b) => ValueS::Num(*b),
            Value::Boolean(b) => ValueS::Bool(*b),
            Value::Nil => ValueS::Nil,
        }
    }
}

/// The type tag of a value, used only for error reporting.
#[derive(Copy, Clone, PartialEq, Eq, Structural, Debug)]
pub enum Type {
    String,
    Number,
    Boolean,
    Nil,
}

/// The type of a value, in spec land.
pub open spec fn type_of(v: ValueS) -> Type {
    match v {
        ValueS::Str(_) => Type::String,
        ValueS::Num(_) => Type::Number,
        ValueS::Bool(_) => Type::Boolean,
        ValueS::Nil => Type::Nil,
    }
}

impl Value {
    /// The type tag of this value.
    pub fn ty(&self) -> (t: Type)
        ensures
            t == type_of(self@),
    {
        match self {
            Value::String(_) => Type::String,
            Value::Number(_) => Type::Number,
            Value::Boolean(_) => Type::Boolean,
            Value::Nil => Type::Nil,
        }
    }
}

/// A failed typed extraction: the set of acceptable types for the failing
/// position, and the offending value.
#[derive(Debug, Clone, PartialEq)]
pub struct TypeError {
    pub expected: Vec<Type>,
    pub actual: Value,
}

/// The model of a [`TypeError`].
pub struct TypeErrorS {
    pub expected: Seq<Type>,
    pub actual: ValueS,
}

impl View for TypeError {
    type V = TypeErrorS;

    open spec fn view(&self) -> TypeErrorS {
        TypeErrorS { expected: self.expected@, actual: self.actual@ }
    }
}

/// What extracting a string from `v` yields: the bytes, or a type error
/// expecting exactly `String` and reporting `v`.
pub open spec fn coerce_string(v: ValueS) -> Result<Seq<u8>, TypeErrorS> {
    match v {
        ValueS::Str(s) => Ok(s),
        _ => Err(TypeErrorS { expected: seq![Type::String], actual: v }),
    }
}

/// What extracting a number from `v` yields: its bits, or a type error
/// expecting exactly `Number` and reporting `v`.
pub open spec fn coerce_number(v: ValueS) -> Result<u64, TypeErrorS> {
    match v {
        ValueS::Num(b) => Ok(b),
        _ => Err(TypeErrorS { expected: seq![Type::Number], actual: v }),
    }
}

/// What extracting a boolean from `v` yields: the boolean, or a type
/// error expecting exactly `Boolean` and reporting `v`.
pub open spec fn coerce_boolean(v: ValueS) -> Result<bool, TypeErrorS> {
    match v {
        ValueS::Bool(b) => Ok(b),
        _ => Err(TypeErrorS { expected: seq![Type::Boolean], actual: v }),
    }
}

impl Value {
    /// Extract this value as a string, or fail with a type error naming
    /// the single expected type and the actual value.
    pub fn as_string(self) -> (r: Result<Vec<u8>, TypeError>)
        ensures
            match r {
                Ok(s) => coerce_string(self@) == Ok::<Seq<u8>, TypeErrorS>(s@),
                Err(e) => coerce_string(self@) == Err::<Seq<u8>, TypeErrorS>(e@),
            },
    {
        match self {
            Value::String(s) => Ok(s),
            _ => {
                let mut expected: Vec<Type> = Vec::new();
                expected.push(Type::String);
                proof {
                    assert(expected@ =~= seq![Type::String]);
                }
                Err(TypeError { expected, actual: self })
            },
        }
    }

    /// Extract this value as a number (its bit pattern), or fail with a
    /// type error naming the single expected type and the actual value.
    pub fn as_number(self) -> (r: Result<u64, TypeError>)
        ensures
            match r {
                Ok(b) => coerce_number(self@) == Ok::<u64, TypeErrorS>(b),
                Err(e) => coerce_number(self@) == Err::<u64, TypeErrorS>(e@),
            },
    {
        match self {
            Value::Number(b) => Ok(b),
            _ => {
                let mut expected: Vec<Type> = Vec::new();
                expected.push(Type::Number);
                proof {
                    assert(expected@ =~= seq![Type::Number]);
                }
                Err(TypeError { expected, actual: self })
            },
        }
    }

    /// Extract this value as a boolean, or fail with a type error naming
    /// the single expected type and the actual value.
    pub fn as_boolean(self) -> (r: Result<bool, TypeError>)
        ensures
            match r {
                Ok(b) => coerce_boolean(self@) == Ok::<bool, TypeErrorS>(b),
                Err(e) => coerce_boolean(self@) == Err::<bool, TypeErrorS>(e@),
            },
    {
        match self {
            Value::Boolean(b) => Ok(b),
            _ => {
                let mut expected: Vec<Type> = Vec::new();
                expected.push(Type::Boolean);
                proof {
                    assert(expected@ =~= seq![Type::Boolean]);
                }
                Err(TypeError { expected, actual: self })
            },
        }
    }
}

} // verus!
