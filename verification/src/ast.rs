use vstd::prelude::*;
use crate::type_checker::value_type::Type;

verus! {

/// Unary operators.
#[derive(Debug, Clone, Copy, PartialEq, Eq, Structural)]
pub enum UnaryOp {
    /// `-e`
    Neg,
    /// `not e`
    Not,
}

/// Binary operators.
#[derive(Debug, Clone, Copy, PartialEq, Eq, Structural)]
pub enum BinaryOp {
    /// `^`
    Pow,
    /// `*`
    Mul,
    /// `/`
    Div,
    /// `mod`
    Mod,
    /// `+`
    Add,
    /// `-`
    Sub,
    /// `<`
    Lt,
    /// `<=`
    Le,
    /// `>`
    Gt,
    /// `>=`
    Ge,
    /// `==`
    Eq,
    /// `!=`
    Ne,
    /// `and`
    And,
    /// `or`
    Or,
    /// `:` (string concatenation)
    Concat,
}

/// Expressions. Literals keep the text they were written with.
#[derive(Debug, PartialEq, Eq)]
pub enum Expr {
    /// An integer literal such as `42`.
    Int(String),
    /// A float literal such as `4.5`.
    Float(String),
    /// `true` or `false`.
    Bool(bool),
    /// A string literal, quotes and escapes included, such as `"a\n"`.
    Str(String),
    /// A char literal, quotes and escapes included, such as `'\n'`.
    Char(String),
    /// A variable.
    Id(String),
    /// `( e )`
    Paren(Box<Expr>),
    /// A unary operator applied to an operand.
    Unary(UnaryOp, Box<Expr>),
    /// A binary operator applied to two operands.
    Binary(BinaryOp, Box<Expr>, Box<Expr>),
    /// `int(e)` or `float(e)`: a conversion to the named type.
    Cast(Type, Box<Expr>),
    /// `to_str(e)`
    ToStr(Box<Expr>),
}

/// Statements.
#[derive(Debug, PartialEq, Eq)]
pub enum Stmt {
    /// `let id: type = e;`, or `let id = e;` where the type is that of `e`.
    Decl(String, Option<Type>, Expr),
    /// `id = e;`
    Mutation(String, Expr),
    /// `print(e);`
    Print(Expr),
    /// `if e { ... }`
    If(Expr, Vec<Stmt>),
    /// `if e { ... } else { ... }`
    IfElse(Expr, Vec<Stmt>, Vec<Stmt>),
    /// `while e { ... }`
    While(Expr, Vec<Stmt>),
    /// An expression standing as a statement.
    Expr(Expr),
}

/// A whole program: its statements in order.
#[derive(Debug, PartialEq, Eq)]
pub struct SyntaxTree {
    pub stmts: Vec<Stmt>,
}

} // verus!
