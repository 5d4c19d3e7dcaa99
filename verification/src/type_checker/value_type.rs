use vstd::prelude::*;
use crate::text::str_eq;

verus! {

/// The types of the language.
#[derive(Debug, Clone, Copy, PartialEq, Eq, Structural)]
pub enum Type {
    Int,
    Float,
    Bool,
    String,
    Char,
    Void,
}

/// The operators whose operand types are checked.
#[derive(Debug, Clone, Copy, PartialEq, Eq, Structural)]
pub enum Operator {
    Pow,
    Mul,
    Div,
    Rem,
    Add,
    Sub,
    Neg,
    Not,
    BitAnd,
    BitOr,
}

/// Name of a type as the language writes it.
pub open spec fn type_label(t: Type) -> Seq<char> {
    match t {
        Type::Int => "int"@,
        Type::Float => "float"@,
        Type::Bool => "bool"@,
        Type::String => "string"@,
        Type::Char => "char"@,
        Type::Void => "void"@,
    }
}

/// The type a name denotes in a declaration or a cast; `void` is no such name.
pub open spec fn type_of_name(s: Seq<char>) -> Option<Type> {
    if s == "int"@ {
        Some(Type::Int)
    } else if s == "float"@ {
        Some(Type::Float)
    } else if s == "string"@ {
        Some(Type::String)
    } else if s == "char"@ {
        Some(Type::Char)
    } else if s == "bool"@ {
        Some(Type::Bool)
    } else {
        None
    }
}

/// Result type of `^`, `*`, `/`, `mod`, `+` and `-`, and the operand types a
/// comparison takes: an int operand mixed with a float one is taken as a float.
pub open spec fn arith_type(lhs: Type, rhs: Type) -> Option<Type> {
    match (lhs, rhs) {
        (Type::Int, Type::Int) => Some(Type::Int),
        (Type::Float, Type::Float) => Some(Type::Float),
        (Type::Float, Type::Int) => Some(Type::Float),
        (Type::Int, Type::Float) => Some(Type::Float),
        _ => None,
    }
}

/// Result type of a negation.
pub open spec fn neg_type(t: Type) -> Option<Type> {
    match t {
        Type::Int => Some(Type::Int),
        Type::Float => Some(Type::Float),
        _ => None,
    }
}

/// Result type of a boolean operator (`not`, `and`, `or`).
pub open spec fn bool_type(lhs: Type, rhs: Type) -> Option<Type> {
    match (lhs, rhs) {
        (Type::Bool, Type::Bool) => Some(Type::Bool),
        _ => None,
    }
}

/// Result type of `:`: strings and chars concatenate to a string.
pub open spec fn concat_type(lhs: Type, rhs: Type) -> Option<Type> {
    match (lhs, rhs) {
        (Type::String, Type::String) | (Type::String, Type::Char) | (Type::Char, Type::String) | (
            Type::Char,
            Type::Char,
        ) => Some(Type::String),
        _ => None,
    }
}

/// Result type of casting a value of type `from` to `to`: only int to float
/// and float to int.
pub open spec fn cast_type(from: Type, to: Type) -> Option<Type> {
    match (to, from) {
        (Type::Int, Type::Float) => Some(Type::Int),
        (Type::Float, Type::Int) => Some(Type::Float),
        _ => None,
    }
}

/// Every type a program can write is read back from its name.
pub proof fn law_name_round_trip(t: Type)
    requires
        t != Type::Void,
    ensures
        type_of_name(type_label(t)) == Some(t),
{
    reveal_strlit("int");
    reveal_strlit("float");
    reveal_strlit("bool");
    reveal_strlit("string");
    reveal_strlit("char");
    assert("int"@.len() == 3 && "float"@.len() == 5 && "string"@.len() == 6);
    assert("char"@.len() == 4 && "bool"@.len() == 4 && "char"@[0] != "bool"@[0]);
}

/// Mixing an int with a float in arithmetic yields a float, whichever side it
/// stands on; casts go between int and float only.
pub proof fn law_numeric_coercion(a: Type, b: Type)
    ensures
        arith_type(a, b) == arith_type(b, a),
        arith_type(Type::Int, Type::Float) == Some(Type::Float),
        cast_type(a, b) is Some <==> ((a == Type::Int && b == Type::Float) || (a == Type::Float
            && b == Type::Int)),
{
}

impl Default for Type {
    fn default() -> (r: Type)
        ensures
            r == Type::Void,
    {
        Type::Void
    }
}

impl Type {
    /// Name of the type as the language writes it.
    pub fn name(&self) -> (r: &'static str)
        ensures
            r@ == type_label(*self),
    {
        match self {
            Type::Int => "int",
            Type::Float => "float",
            Type::Bool => "bool",
            Type::String => "string",
            Type::Char => "char",
            Type::Void => "void",
        }
    }

    /// The type a name denotes; `s` must be one of `int`, `float`, `string`,
    /// `char` and `bool`.
    pub fn from_str(s: &str) -> (r: Option<Type>)
        requires
            type_of_name(s@) is Some,
        ensures
            r == type_of_name(s@),
    {
        if str_eq(s, "int") {
            Some(Type::Int)
        } else if str_eq(s, "float") {
            Some(Type::Float)
        } else if str_eq(s, "string") {
            Some(Type::String)
        } else if str_eq(s, "char") {
            Some(Type::Char)
        } else if str_eq(s, "bool") {
            Some(Type::Bool)
        } else {
            None
        }
    }

    /// Type of `self ^ rhs`: an int mixed with a float is taken as a float.
    pub fn pow(self, rhs: Type) -> (r: Type)
        requires
            arith_type(self, rhs) is Some,
        ensures
            arith_type(self, rhs) == Some(r),
    {
        self.arith(rhs)
    }

    /// Type of a comparison of `self` with `rhs`, two ints or floats: a bool.
    pub fn cmp_type(&self, rhs: Type) -> (r: Type)
        requires
            arith_type(*self, rhs) is Some,
        ensures
            r == Type::Bool,
    {
        Type::Bool
    }

    /// Type of `self : rhs`.
    pub fn concat(&self, rhs: Type) -> (r: Type)
        requires
            concat_type(*self, rhs) is Some,
        ensures
            concat_type(*self, rhs) == Some(r),
    {
        Type::String
    }

    /// Type of casting a value of type `self` to `cast_typ`.
    pub fn cast(self, cast_typ: Type) -> (r: Type)
        requires
            cast_type(self, cast_typ) is Some,
        ensures
            cast_type(self, cast_typ) == Some(r),
    {
        cast_typ
    }

    /// Type of `not self`.
    pub fn not(self) -> (r: Type)
        requires
            self == Type::Bool,
        ensures
            r == Type::Bool,
    {
        self
    }

    /// Type of `self * rhs`.
    pub fn mul(self, rhs: Type) -> (r: Type)
        requires
            arith_type(self, rhs) is Some,
        ensures
            arith_type(self, rhs) == Some(r),
    {
        self.arith(rhs)
    }

    /// Type of `self / rhs`.
    pub fn div(self, rhs: Type) -> (r: Type)
        requires
            arith_type(self, rhs) is Some,
        ensures
            arith_type(self, rhs) == Some(r),
    {
        self.arith(rhs)
    }

    /// Type of `self mod rhs`.
    pub fn rem(self, rhs: Type) -> (r: Type)
        requires
            arith_type(self, rhs) is Some,
        ensures
            arith_type(self, rhs) == Some(r),
    {
        self.arith(rhs)
    }

    /// Type of `self + rhs`.
    pub fn add(self, rhs: Type) -> (r: Type)
        requires
            arith_type(self, rhs) is Some,
        ensures
            arith_type(self, rhs) == Some(r),
    {
        self.arith(rhs)
    }

    /// Type of `self - rhs`.
    pub fn sub(self, rhs: Type) -> (r: Type)
        requires
            arith_type(self, rhs) is Some,
        ensures
            arith_type(self, rhs) == Some(r),
    {
        self.arith(rhs)
    }

    fn arith(self, rhs: Type) -> (r: Type)
        requires
            arith_type(self, rhs) is Some,
        ensures
            arith_type(self, rhs) == Some(r),
    {
        match (self, rhs) {
            (Type::Int, Type::Int) => self,
            (Type::Float, Type::Float) => self,
            _ => Type::Float,
        }
    }

    /// Type of `-self`.
    pub fn neg(self) -> (r: Type)
        requires
            neg_type(self) is Some,
        ensures
            neg_type(self) == Some(r),
    {
        self
    }

    /// Type of `self and rhs`.
    pub fn bitand(self, rhs: Type) -> (r: Type)
        requires
            bool_type(self, rhs) is Some,
        ensures
            bool_type(self, rhs) == Some(r),
    {
        self
    }

    /// Type of `self or rhs`.
    pub fn bitor(self, rhs: Type) -> (r: Type)
        requires
            bool_type(self, rhs) is Some,
        ensures
            bool_type(self, rhs) == Some(r),
    {
        self
    }
}

} // verus!
