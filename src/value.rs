//! Parameter types and the typed values extracted from request paths.

use vstd::prelude::*;
use crate::text::{chars_of, lowercase, lower_of, str_is};

verus! {

/// The declared type of a route placeholder.
#[derive(Debug, Clone, Copy, PartialEq, Eq)]
pub enum ParamType {
    Int,
    Float,
    Str,
    /// Swallows the rest of the path; only ever the last placeholder.
    Path,
}

/// The type that a lowercased type token names; unknown tokens mean `Str`.
pub open spec fn type_of_token(l: Seq<char>) -> ParamType {
    if l == seq!['i', 'n', 't'] {
        ParamType::Int
    } else if l == seq!['f', 'l', 'o', 'a', 't'] {
        ParamType::Float
    } else if l == seq!['p', 'a', 't', 'h'] {
        ParamType::Path
    } else {
        ParamType::Str
    }
}

impl ParamType {
    /// The type named by a type token, compared without regard to case.
    pub fn from_str(s: &str) -> (r: ParamType)
        ensures
            r == type_of_token(lower_of(s@)),
    {
        let l = lowercase(s);
        ParamType::from_lowercase(l.as_str())
    }

    /// The type named by an already lowercased type token.
    pub fn from_lowercase(l: &str) -> (r: ParamType)
        ensures
            r == type_of_token(l@),
    {
        let v = chars_of(l);
        proof {
            reveal_strlit("int");
            reveal_strlit("float");
            reveal_strlit("path");
            assert("int"@ =~= seq!['i', 'n', 't']);
            assert("float"@ =~= seq!['f', 'l', 'o', 'a', 't']);
            assert("path"@ =~= seq!['p', 'a', 't', 'h']);
        }
        if str_is(&v, "int") {
            ParamType::Int
        } else if str_is(&v, "float") {
            ParamType::Float
        } else if str_is(&v, "path") {
            ParamType::Path
        } else {
            ParamType::Str
        }
    }
}

/// An arithmetic operator of a response expression.
#[derive(Debug, Clone, Copy, PartialEq, Eq)]
pub enum Op {
    Add,
    Sub,
    Mul,
    Div,
}

/// A floating-point number as the host computes it: a literal text, the
/// bits of an `f64`, an integer promoted to `f64`, or an operation on two
/// such numbers. The host evaluates it in IEEE double precision.
#[derive(Debug)]
pub enum FloatTerm {
    /// The value `f64::from_str` reads from this text.
    Text(String),
    /// The `f64` with these bits.
    Bits(u64),
    /// The integer converted with `as f64`.
    OfInt(i64),
    Bin(Box<FloatTerm>, Op, Box<FloatTerm>),
}

impl FloatTerm {
    /// An equal copy.
    pub fn duplicate(&self) -> (r: FloatTerm)
        ensures
            r == *self,
        decreases self,
    {
        match self {
            FloatTerm::Text(s) => FloatTerm::Text(s.clone()),
            FloatTerm::Bits(b) => FloatTerm::Bits(*b),
            FloatTerm::OfInt(i) => FloatTerm::OfInt(*i),
            FloatTerm::Bin(l, op, r) => {
                let l2 = l.duplicate();
                let r2 = r.duplicate();
                FloatTerm::Bin(Box::new(l2), *op, Box::new(r2))
            },
        }
    }
}

/// A value taken from a request path, or computed from such values.
#[derive(Debug)]
pub enum TypedValue {
    Int(i64),
    /// An integer too large for 64 bits, kept as its decimal text.
    BigInt(String),
    Float(FloatTerm),
    Str(String),
}

impl TypedValue {
    /// An equal copy.
    pub fn duplicate(&self) -> (r: TypedValue)
        ensures
            r == *self,
    {
        match self {
            TypedValue::Int(n) => TypedValue::Int(*n),
            TypedValue::BigInt(s) => TypedValue::BigInt(s.clone()),
            TypedValue::Float(f) => TypedValue::Float(f.duplicate()),
            TypedValue::Str(s) => TypedValue::Str(s.clone()),
        }
    }
}

} // verus!
