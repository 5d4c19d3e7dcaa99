pub mod value_type;

use vstd::prelude::*;
use crate::ast::{BinaryOp, Expr, Stmt, SyntaxTree, UnaryOp};
use crate::memory::{assign, declare, lookup, HashMemory, Memory, Scopes};
use value_type::{
    arith_type, bool_type, cast_type, concat_type, neg_type, Operator, Type,
};

verus! {

/// Why a program does not type check.
#[derive(Debug, PartialEq, Eq)]
pub enum TypeError {
    /// A binary operator applied to operand types it does not take.
    OperatorMismatch(Operator, Type, Type),
    /// A unary operator applied to an operand type it does not take.
    UnaryMismatch(Operator, Type),
    /// Two values of types that cannot be compared.
    CannotCompare(Type, Type),
    /// Two values of types that cannot be concatenated.
    CannotConcat(Type, Type),
    /// A cast from the first type to the second, which is not supported.
    CannotConvert(Type, Type),
    /// The first type was expected where the second was found.
    MismatchedTypes(Type, Type),
    /// A variable that was never declared.
    UnknownVariable(String),
}

/// Type of a binary operation on operands of types `lhs` and `rhs`.
/// A comparison yields a `bool`, provided its operands are ints or floats; an
/// int mixed with a float is taken as a float, for `^` and comparisons too.
pub open spec fn binary_type(op: BinaryOp, lhs: Type, rhs: Type) -> Result<Type, TypeError> {
    match op {
        BinaryOp::Pow => match arith_type(lhs, rhs) {
            Some(t) => Ok(t),
            None => Err(TypeError::OperatorMismatch(Operator::Pow, lhs, rhs)),
        },
        BinaryOp::Mul | BinaryOp::Div | BinaryOp::Mod | BinaryOp::Add | BinaryOp::Sub => {
            match arith_type(lhs, rhs) {
                Some(t) => Ok(t),
                None => Err(TypeError::OperatorMismatch(arith_operator(op), lhs, rhs)),
            }
        },
        BinaryOp::Lt | BinaryOp::Le | BinaryOp::Gt | BinaryOp::Ge => {
            match arith_type(lhs, rhs) {
                Some(t) => Ok(Type::Bool),
                None => Err(TypeError::CannotCompare(lhs, rhs)),
            }
        },
        BinaryOp::Eq | BinaryOp::Ne => if lhs == rhs {
            Ok(Type::Bool)
        } else {
            Err(TypeError::CannotCompare(lhs, rhs))
        },
        BinaryOp::And | BinaryOp::Or => match bool_type(lhs, rhs) {
            Some(t) => Ok(t),
            None => Err(
                TypeError::OperatorMismatch(
                    if op == BinaryOp::And {
                        Operator::BitAnd
                    } else {
                        Operator::BitOr
                    },
                    lhs,
                    rhs,
                ),
            ),
        },
        BinaryOp::Concat => match concat_type(lhs, rhs) {
            Some(t) => Ok(t),
            None => Err(TypeError::CannotConcat(lhs, rhs)),
        },
    }
}

/// The operator name under which an arithmetic operator reports a mismatch.
pub open spec fn arith_operator(op: BinaryOp) -> Operator {
    match op {
        BinaryOp::Mul => Operator::Mul,
        BinaryOp::Div => Operator::Div,
        BinaryOp::Mod => Operator::Rem,
        BinaryOp::Add => Operator::Add,
        _ => Operator::Sub,
    }
}

/// Type of a unary operation on an operand of type `t`.
pub open spec fn unary_type(op: UnaryOp, t: Type) -> Result<Type, TypeError> {
    match op {
        UnaryOp::Neg => match neg_type(t) {
            Some(r) => Ok(r),
            None => Err(TypeError::UnaryMismatch(Operator::Neg, t)),
        },
        UnaryOp::Not => if t == Type::Bool {
            Ok(Type::Bool)
        } else {
            Err(TypeError::UnaryMismatch(Operator::Not, t))
        },
    }
}

/// Type of an expression under the variable types of `env`; sub-expressions
/// are checked left to right and the first error wins. The operand of
/// `to_str` is not examined.
pub open spec fn expr_type(env: Scopes<Type>, e: Expr) -> Result<Type, TypeError>
    decreases e,
{
    match e {
        Expr::Int(_) => Ok(Type::Int),
        Expr::Float(_) => Ok(Type::Float),
        Expr::Bool(_) => Ok(Type::Bool),
        Expr::Str(_) => Ok(Type::String),
        Expr::Char(_) => Ok(Type::Char),
        Expr::Id(name) => match lookup(env, name@) {
            Some(t) => Ok(t),
            None => Err(TypeError::UnknownVariable(name)),
        },
        Expr::Paren(inner) => expr_type(env, *inner),
        Expr::Unary(op, operand) => match expr_type(env, *operand) {
            Ok(t) => unary_type(op, t),
            Err(err) => Err(err),
        },
        Expr::Binary(op, lhs, rhs) => match expr_type(env, *lhs) {
            Ok(lt) => match expr_type(env, *rhs) {
                Ok(rt) => binary_type(op, lt, rt),
                Err(err) => Err(err),
            },
            Err(err) => Err(err),
        },
        Expr::Cast(to, operand) => match expr_type(env, *operand) {
            Ok(t) => match cast_type(t, to) {
                Some(r) => Ok(r),
                None => Err(TypeError::CannotConvert(t, to)),
            },
            Err(err) => Err(err),
        },
        Expr::ToStr(_) => Ok(Type::String),
    }
}

/// Checks a condition of `if` or `while`: it must be a `bool`.
pub open spec fn condition_ok(env: Scopes<Type>, cond: Expr) -> Result<(Scopes<Type>, Type), TypeError> {
    match expr_type(env, cond) {
        Ok(Type::Bool) => Ok((env, Type::Void)),
        Ok(t) => Err(TypeError::MismatchedTypes(Type::Bool, t)),
        Err(err) => Err(err),
    }
}

/// Effect of checking one statement: the variable types afterwards and the
/// statement's type. A declaration must agree with its initial value (one
/// without a type takes that of its value), an assignment with the variable's
/// declared type. The bodies of `if` and
/// `while` and the operand of `print` are not examined.
pub open spec fn stmt_effect(env: Scopes<Type>, s: Stmt) -> Result<(Scopes<Type>, Type), TypeError> {
    match s {
        Stmt::Decl(id, ty, e) => match expr_type(env, e) {
            Ok(vt) => match ty {
                Some(t) => if t == vt {
                    Ok((declare(env, id@, t), Type::Void))
                } else {
                    Err(TypeError::MismatchedTypes(t, vt))
                },
                None => Ok((declare(env, id@, vt), Type::Void)),
            },
            Err(err) => Err(err),
        },
        Stmt::Mutation(id, e) => match expr_type(env, e) {
            Ok(vt) => match lookup(env, id@) {
                Some(it) => if it == vt {
                    Ok((assign(env, id@, vt), Type::Void))
                } else {
                    Err(TypeError::MismatchedTypes(it, vt))
                },
                None => Err(TypeError::UnknownVariable(id)),
            },
            Err(err) => Err(err),
        },
        Stmt::Print(_) => Ok((env, Type::Void)),
        Stmt::If(cond, _) => condition_ok(env, cond),
        Stmt::IfElse(cond, _, _) => condition_ok(env, cond),
        Stmt::While(cond, _) => condition_ok(env, cond),
        Stmt::Expr(e) => match expr_type(env, e) {
            Ok(t) => Ok((env, t)),
            Err(err) => Err(err),
        },
    }
}

/// Checks `stmts` in order from `env`, where `last` is the type of the
/// statement checked before them; the result holds the final variable types
/// and the type of the last statement.
pub open spec fn stmts_effect(env: Scopes<Type>, stmts: Seq<Stmt>, last: Type) -> Result<
    (Scopes<Type>, Type),
    TypeError,
>
    decreases stmts.len(),
{
    if stmts.len() == 0 {
        Ok((env, last))
    } else {
        match stmt_effect(env, stmts[0]) {
            Ok((env2, t)) => stmts_effect(env2, stmts.drop_first(), t),
            Err(err) => Err(err),
        }
    }
}

/// The checker rejects, with an error naming the fault: a declaration whose
/// value has another type than the one declared
/// (`MismatchedTypes(declared, found)`), an assignment of a value of another
/// type than the variable's (`MismatchedTypes(variable's, found)`), and a use
/// of a variable that was never declared (`UnknownVariable(name)`).
pub proof fn law_checker_rejections(env: Scopes<Type>, id: String, t: Type, e: Expr, name: String)
    ensures
        expr_type(env, e) matches Ok(vt) ==> (vt != t ==> stmt_effect(
            env,
            Stmt::Decl(id, Some(t), e),
        ) == Err::<(Scopes<Type>, Type), TypeError>(TypeError::MismatchedTypes(t, vt))),
        expr_type(env, e) matches Ok(vt) ==> (lookup(env, id@) matches Some(it) ==> (it != vt
            ==> stmt_effect(env, Stmt::Mutation(id, e)) == Err::<(Scopes<Type>, Type), TypeError>(
            TypeError::MismatchedTypes(it, vt),
        ))),
        lookup(env, name@) is None ==> expr_type(env, Expr::Id(name)) == Err::<Type, TypeError>(
            TypeError::UnknownVariable(name),
        ),
        lookup(env, name@) is None ==> stmt_effect(env, Stmt::Expr(Expr::Id(name))) == Err::<
            (Scopes<Type>, Type),
            TypeError,
        >(TypeError::UnknownVariable(name)),
{
}

/// The checker accepts a declaration whose value has the declared type (or
/// no type is declared) and records the variable at that type, and accepts
/// an assignment of a value of the variable's type.
pub proof fn law_checker_accepts_agreeing_types(env: Scopes<Type>, id: String, t: Type, e: Expr)
    ensures
        expr_type(env, e) == Ok::<Type, TypeError>(t) ==> stmt_effect(
            env,
            Stmt::Decl(id, Some(t), e),
        ) == Ok::<(Scopes<Type>, Type), TypeError>((declare(env, id@, t), Type::Void)),
        expr_type(env, e) == Ok::<Type, TypeError>(t) ==> stmt_effect(env, Stmt::Decl(id, None, e))
            == Ok::<(Scopes<Type>, Type), TypeError>((declare(env, id@, t), Type::Void)),
        expr_type(env, e) == Ok::<Type, TypeError>(t) && lookup(env, id@) == Some(t) ==> stmt_effect(
            env,
            Stmt::Mutation(id, e),
        ) == Ok::<(Scopes<Type>, Type), TypeError>((assign(env, id@, t), Type::Void)),
{
}

/// The condition of `if`, `if`/`else` and `while` must be a bool: a bool
/// condition is accepted and changes no variable type, a condition of any
/// other type `t` is rejected with `MismatchedTypes(Bool, t)`. An expression
/// statement has its expression's type.
pub proof fn law_checker_conditions(
    env: Scopes<Type>,
    c: Expr,
    body: Vec<Stmt>,
    other: Vec<Stmt>,
    t: Type,
)
    ensures
        expr_type(env, c) == Ok::<Type, TypeError>(Type::Bool) ==> {
            &&& stmt_effect(env, Stmt::If(c, body)) == Ok::<(Scopes<Type>, Type), TypeError>(
                (env, Type::Void),
            )
            &&& stmt_effect(env, Stmt::IfElse(c, body, other)) == Ok::<
                (Scopes<Type>, Type),
                TypeError,
            >((env, Type::Void))
            &&& stmt_effect(env, Stmt::While(c, body)) == Ok::<(Scopes<Type>, Type), TypeError>(
                (env, Type::Void),
            )
        },
        expr_type(env, c) == Ok::<Type, TypeError>(t) && t != Type::Bool ==> {
            &&& stmt_effect(env, Stmt::If(c, body)) == Err::<(Scopes<Type>, Type), TypeError>(
                TypeError::MismatchedTypes(Type::Bool, t),
            )
            &&& stmt_effect(env, Stmt::While(c, body)) == Err::<(Scopes<Type>, Type), TypeError>(
                TypeError::MismatchedTypes(Type::Bool, t),
            )
        },
        expr_type(env, c) == Ok::<Type, TypeError>(t) ==> stmt_effect(env, Stmt::Expr(c)) == Ok::<
            (Scopes<Type>, Type),
            TypeError,
        >((env, t)),
{
}

/// A static checker of the types of a program's top-level statements.
pub struct ImpTypeChecker {
    res: Type,
    memory: HashMemory<Type>,
}

impl Default for ImpTypeChecker {
    fn default() -> (r: Self)
        ensures
            r.wf(),
            r.env() == seq![Map::<Seq<char>, Type>::empty()],
            r.last() == Type::Void,
    {
        ImpTypeChecker { res: Type::Void, memory: HashMemory::new() }
    }
}

impl ImpTypeChecker {
    /// The types of the variables declared so far, scope by scope.
    pub closed spec fn env(&self) -> Scopes<Type> {
        self.memory@
    }

    /// The type of the last statement checked.
    pub closed spec fn last(&self) -> Type {
        self.res
    }

    /// The checker holds at least the global scope.
    pub open spec fn wf(&self) -> bool {
        self.env().len() > 0
    }

    /// A checker that knows no variable.
    pub fn new() -> (r: Self)
        ensures
            r.wf(),
            r.env() == seq![Map::<Seq<char>, Type>::empty()],
            r.last() == Type::Void,
    {
        Self::default()
    }

    /// Checks the program's statements in order. `Ok` exactly when each of them
    /// type checks; the variables it declares stay known to later calls.
    pub fn check(&mut self, ast: &SyntaxTree) -> (r: Result<(), TypeError>)
        requires
            old(self).wf(),
        ensures
            final(self).wf(),
            match stmts_effect(old(self).env(), ast.stmts@, Type::Void) {
                Ok((env, t)) => r is Ok && final(self).env() == env && final(self).last() == t,
                Err(err) => r == Err::<(), TypeError>(err),
            },
    {
        let n = ast.stmts.len();
        let mut i: usize = 0;
        self.res = Type::Void;
        assert(ast.stmts@.skip(0) =~= ast.stmts@);
        while i < n
            invariant
                n == ast.stmts@.len(),
                i <= n,
                self.wf(),
                stmts_effect(old(self).env(), ast.stmts@, Type::Void) == stmts_effect(
                    self.env(),
                    ast.stmts@.skip(i as int),
                    self.last(),
                ),
            decreases n - i,
        {
            assert(ast.stmts@.skip(i as int).drop_first() =~= ast.stmts@.skip(i + 1));
            let t = self.check_stmt(&ast.stmts[i])?;
            self.res = t;
            i = i + 1;
        }
        Ok(())
    }

    /// Checks one statement, records its declarations and returns its type.
    pub fn check_stmt(&mut self, s: &Stmt) -> (r: Result<Type, TypeError>)
        requires
            old(self).wf(),
        ensures
            final(self).wf(),
            final(self).last() == old(self).last(),
            match stmt_effect(old(self).env(), *s) {
                Ok((env, t)) => r == Ok::<Type, TypeError>(t) && final(self).env() == env,
                Err(err) => r == Err::<Type, TypeError>(err),
            },
    {
        match s {
            Stmt::Decl(id, ty, e) => {
                let vt = self.check_expr(e)?;
                match ty {
                    Some(t) => {
                        if *t == vt {
                            self.memory.add(id.clone(), *t);
                            Ok(Type::Void)
                        } else {
                            Err(TypeError::MismatchedTypes(*t, vt))
                        }
                    },
                    None => {
                        self.memory.add(id.clone(), vt);
                        Ok(Type::Void)
                    },
                }
            },
            Stmt::Mutation(id, e) => {
                let vt = self.check_expr(e)?;
                proof {
                    crate::memory::lemma_innermost(self.env(), id@);
                }
                match self.memory.get(id.as_str()) {
                    Some(it) => {
                        let it = *it;
                        if it == vt {
                            self.memory.update(id.clone(), vt);
                            Ok(Type::Void)
                        } else {
                            Err(TypeError::MismatchedTypes(it, vt))
                        }
                    },
                    None => Err(TypeError::UnknownVariable(id.clone())),
                }
            },
            Stmt::Print(_) => Ok(Type::Void),
            Stmt::If(cond, _) => self.check_condition(cond),
            Stmt::IfElse(cond, _, _) => self.check_condition(cond),
            Stmt::While(cond, _) => self.check_condition(cond),
            Stmt::Expr(e) => self.check_expr(e),
        }
    }

    fn check_condition(&self, cond: &Expr) -> (r: Result<Type, TypeError>)
        ensures
            match condition_ok(self.env(), *cond) {
                Ok((env, t)) => r == Ok::<Type, TypeError>(t),
                Err(err) => r == Err::<Type, TypeError>(err),
            },
    {
        let t = self.check_expr(cond)?;
        match t {
            Type::Bool => Ok(Type::Void),
            _ => Err(TypeError::MismatchedTypes(Type::Bool, t)),
        }
    }

    /// The type of an expression under the variables declared so far.
    pub fn check_expr(&self, e: &Expr) -> (r: Result<Type, TypeError>)
        ensures
            r == expr_type(self.env(), *e),
        decreases e,
    {
        match e {
            Expr::Int(_) => Ok(Type::Int),
            Expr::Float(_) => Ok(Type::Float),
            Expr::Bool(_) => Ok(Type::Bool),
            Expr::Str(_) => Ok(Type::String),
            Expr::Char(_) => Ok(Type::Char),
            Expr::Id(name) => match self.memory.get(name.as_str()) {
                Some(t) => Ok(*t),
                None => Err(TypeError::UnknownVariable(name.clone())),
            },
            Expr::Paren(inner) => self.check_expr(inner),
            Expr::Unary(op, operand) => {
                let t = self.check_expr(operand)?;
                check_unary(*op, t)
            },
            Expr::Binary(op, lhs, rhs) => {
                let lt = self.check_expr(lhs)?;
                let rt = self.check_expr(rhs)?;
                check_binary(*op, lt, rt)
            },
            Expr::Cast(to, operand) => {
                let t = self.check_expr(operand)?;
                match (*to, t) {
                    (Type::Int, Type::Float) | (Type::Float, Type::Int) => Ok(t.cast(*to)),
                    _ => Err(TypeError::CannotConvert(t, *to)),
                }
            },
            Expr::ToStr(_) => Ok(Type::String),
        }
    }
}

/// Type of a unary operation, or why it is ill-typed.
pub fn check_unary(op: UnaryOp, t: Type) -> (r: Result<Type, TypeError>)
    ensures
        r == unary_type(op, t),
{
    match op {
        UnaryOp::Neg => match t {
            Type::Int | Type::Float => Ok(t.neg()),
            _ => Err(TypeError::UnaryMismatch(Operator::Neg, t)),
        },
        UnaryOp::Not => match t {
            Type::Bool => Ok(t.not()),
            _ => Err(TypeError::UnaryMismatch(Operator::Not, t)),
        },
    }
}

/// Type of a binary operation, or why it is ill-typed.
pub fn check_binary(op: BinaryOp, lhs: Type, rhs: Type) -> (r: Result<Type, TypeError>)
    ensures
        r == binary_type(op, lhs, rhs),
{
    let numeric = match (lhs, rhs) {
        (Type::Int, Type::Int) | (Type::Float, Type::Float) => true,
        _ => false,
    };
    let mixed_numeric = match (lhs, rhs) {
        (Type::Int, Type::Float) | (Type::Float, Type::Int) => true,
        _ => false,
    };
    let booleans = match (lhs, rhs) {
        (Type::Bool, Type::Bool) => true,
        _ => false,
    };
    let textual = match (lhs, rhs) {
        (Type::String, Type::String) | (Type::String, Type::Char) | (Type::Char, Type::String) | (
            Type::Char,
            Type::Char,
        ) => true,
        _ => false,
    };
    match op {
        BinaryOp::Pow => if numeric || mixed_numeric {
            Ok(lhs.pow(rhs))
        } else {
            Err(TypeError::OperatorMismatch(Operator::Pow, lhs, rhs))
        },
        BinaryOp::Mul => if numeric || mixed_numeric {
            Ok(lhs.mul(rhs))
        } else {
            Err(TypeError::OperatorMismatch(Operator::Mul, lhs, rhs))
        },
        BinaryOp::Div => if numeric || mixed_numeric {
            Ok(lhs.div(rhs))
        } else {
            Err(TypeError::OperatorMismatch(Operator::Div, lhs, rhs))
        },
        BinaryOp::Mod => if numeric || mixed_numeric {
            Ok(lhs.rem(rhs))
        } else {
            Err(TypeError::OperatorMismatch(Operator::Rem, lhs, rhs))
        },
        BinaryOp::Add => if numeric || mixed_numeric {
            Ok(lhs.add(rhs))
        } else {
            Err(TypeError::OperatorMismatch(Operator::Add, lhs, rhs))
        },
        BinaryOp::Sub => if numeric || mixed_numeric {
            Ok(lhs.sub(rhs))
        } else {
            Err(TypeError::OperatorMismatch(Operator::Sub, lhs, rhs))
        },
        BinaryOp::Lt | BinaryOp::Le | BinaryOp::Gt | BinaryOp::Ge => if numeric || mixed_numeric {
            Ok(lhs.cmp_type(rhs))
        } else {
            Err(TypeError::CannotCompare(lhs, rhs))
        },
        BinaryOp::Eq | BinaryOp::Ne => if lhs == rhs {
            Ok(Type::Bool)
        } else {
            Err(TypeError::CannotCompare(lhs, rhs))
        },
        BinaryOp::And => if booleans {
            Ok(lhs.bitand(rhs))
        } else {
            Err(TypeError::OperatorMismatch(Operator::BitAnd, lhs, rhs))
        },
        BinaryOp::Or => if booleans {
            Ok(lhs.bitor(rhs))
        } else {
            Err(TypeError::OperatorMismatch(Operator::BitOr, lhs, rhs))
        },
        BinaryOp::Concat => if textual {
            Ok(lhs.concat(rhs))
        } else {
            Err(TypeError::CannotConcat(lhs, rhs))
        },
    }
}

} // verus!
