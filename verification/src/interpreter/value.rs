use vstd::prelude::*;
use vstd::arithmetic::power::pow;
use crate::ast::BinaryOp;
use crate::escape::{unescape, unescaped};
use crate::parser::lexer::{word_token, Tok};
use crate::text::{i32_text, int_text, law_int_text_reads_back, parse_i32, push_char, signed_value, str_eq};
use crate::type_checker::value_type::{Operator, Type};

verus! {

/// Floating-point arithmetic, supplied by the user of the interpreter.
/// Nothing is assumed of these operations: the contracts of this crate tie
/// each result that depends on one of them to a result the operation gave on
/// the operands (`call_ensures`), without saying what that result is.
pub trait FloatArith: Sized + Copy {
    /// The float a literal denotes, if the text is one.
    fn parse_float(text: &str) -> Option<Self>;

    /// Conversion of an integer.
    fn from_int(i: i32) -> Self;

    /// Conversion to an integer.
    fn to_int(&self) -> i32;

    fn float_add(&self, rhs: &Self) -> Self;

    fn float_sub(&self, rhs: &Self) -> Self;

    fn float_mul(&self, rhs: &Self) -> Self;

    fn float_div(&self, rhs: &Self) -> Self;

    fn float_rem(&self, rhs: &Self) -> Self;

    fn float_pow(&self, rhs: &Self) -> Self;

    fn float_neg(&self) -> Self;

    fn float_eq(&self, rhs: &Self) -> bool;

    fn float_lt(&self, rhs: &Self) -> bool;

    fn float_le(&self, rhs: &Self) -> bool;

    /// The text a float is printed as.
    fn float_text(&self) -> String;
}

/// Runtime values.
#[derive(Debug, Clone, PartialEq)]
pub enum Value<F> {
    Int(i32),
    Float(F),
    Bool(bool),
    String(String),
    Char(char),
    Void,
}

/// The mathematical content of a value.
pub enum ValueView<F> {
    Int(i32),
    Float(F),
    Bool(bool),
    Str(Seq<char>),
    Char(char),
    Void,
}

impl<F> View for Value<F> {
    type V = ValueView<F>;

    open spec fn view(&self) -> ValueView<F> {
        match self {
            Value::Int(i) => ValueView::Int(*i),
            Value::Float(f) => ValueView::Float(*f),
            Value::Bool(b) => ValueView::Bool(*b),
            Value::String(s) => ValueView::Str(s@),
            Value::Char(c) => ValueView::Char(*c),
            Value::Void => ValueView::Void,
        }
    }
}

/// Why running a program failed.
#[derive(Debug, PartialEq, Eq)]
pub enum RuntimeError {
    /// A binary operator applied to values of types it does not take.
    OperatorMismatch(Operator, Type, Type),
    /// A unary operator applied to a value of a type it does not take.
    UnaryMismatch(Operator, Type),
    /// Two values of types that cannot be compared.
    CannotCompare(Type, Type),
    /// A conversion from the first type to the second, which is not supported.
    CannotConvert(Type, Type),
    /// An integer power with a negative exponent.
    NegativeExponent,
    /// An integer operation whose result does not fit in an `i32`.
    Overflow(Operator),
    /// An integer division or remainder by zero.
    DivisionByZero(Operator),
    /// A variable that was never declared.
    UnknownVariable(String),
    /// A literal whose text denotes no value.
    InvalidLiteral(String),
    /// A loop ran out of the iterations it was allowed.
    OutOfFuel,
}

/// The outcome of an operation, seen through the views of the values.
pub open spec fn outcome<F>(r: Result<Value<F>, RuntimeError>) -> Result<ValueView<F>, RuntimeError> {
    match r {
        Ok(v) => Ok(v@),
        Err(e) => Err(e),
    }
}

/// The type of a value.
pub open spec fn view_type<F>(v: ValueView<F>) -> Type {
    match v {
        ValueView::Int(_) => Type::Int,
        ValueView::Float(_) => Type::Float,
        ValueView::Bool(_) => Type::Bool,
        ValueView::Str(_) => Type::String,
        ValueView::Char(_) => Type::Char,
        ValueView::Void => Type::Void,
    }
}

/// The text a value is printed as; `None` for a float, whose text the float
/// arithmetic decides.
pub open spec fn display<F>(v: ValueView<F>) -> Option<Seq<char>> {
    match v {
        ValueView::Int(i) => Some(int_text(i as int)),
        ValueView::Float(_) => None,
        ValueView::Bool(b) => Some(
            if b {
                "true"@
            } else {
                "false"@
            },
        ),
        ValueView::Str(s) => Some(s),
        ValueView::Char(c) => Some(seq![c]),
        ValueView::Void => Some("()"@),
    }
}

/// An `i32` result, or an overflow of `op`.
pub open spec fn int_or_overflow<F>(r: Option<i32>, op: Operator) -> Result<ValueView<F>, RuntimeError> {
    match r {
        Some(v) => Ok(ValueView::Int(v)),
        None => Err(RuntimeError::Overflow(op)),
    }
}

/// `a ^ b` on integers.
pub open spec fn int_pow<F>(a: i32, b: i32) -> Result<ValueView<F>, RuntimeError> {
    if b < 0 {
        Err(RuntimeError::NegativeExponent)
    } else {
        let p = pow(a as int, b as nat);
        if i32::MIN <= p <= i32::MAX {
            Ok(ValueView::Int(p as i32))
        } else {
            Err(RuntimeError::Overflow(Operator::Pow))
        }
    }
}

/// The arithmetic operators on integers; division truncates towards zero and
/// the remainder takes the sign of the dividend.
pub open spec fn int_arith<F>(op: BinaryOp, a: i32, b: i32) -> Result<ValueView<F>, RuntimeError> {
    match op {
        BinaryOp::Mul => int_or_overflow(a.checked_mul(b), Operator::Mul),
        BinaryOp::Div => if b == 0 {
            Err(RuntimeError::DivisionByZero(Operator::Div))
        } else {
            int_or_overflow(a.checked_div(b), Operator::Div)
        },
        BinaryOp::Mod => if b == 0 {
            Err(RuntimeError::DivisionByZero(Operator::Rem))
        } else {
            int_or_overflow(a.checked_rem(b), Operator::Rem)
        },
        BinaryOp::Add => int_or_overflow(a.checked_add(b), Operator::Add),
        _ => int_or_overflow(a.checked_sub(b), Operator::Sub),
    }
}

/// The operator a mismatch of an arithmetic or logical operator is reported under.
pub open spec fn operator_of(op: BinaryOp) -> Operator {
    match op {
        BinaryOp::Pow => Operator::Pow,
        BinaryOp::Mul => Operator::Mul,
        BinaryOp::Div => Operator::Div,
        BinaryOp::Mod => Operator::Rem,
        BinaryOp::Add => Operator::Add,
        BinaryOp::And => Operator::BitAnd,
        BinaryOp::Or => Operator::BitOr,
        _ => Operator::Sub,
    }
}

/// Whether two values are equal: `None` for two floats, an error for values of
/// different types.
pub open spec fn equal_view<F>(l: ValueView<F>, r: ValueView<F>) -> Option<Result<bool, RuntimeError>> {
    match (l, r) {
        (ValueView::Int(a), ValueView::Int(b)) => Some(Ok(a == b)),
        (ValueView::Float(_), ValueView::Float(_)) => None,
        (ValueView::Bool(a), ValueView::Bool(b)) => Some(Ok(a == b)),
        (ValueView::Str(a), ValueView::Str(b)) => Some(Ok(a == b)),
        (ValueView::Char(a), ValueView::Char(b)) => Some(Ok(a == b)),
        (ValueView::Void, ValueView::Void) => Some(Ok(true)),
        _ => Some(Err(RuntimeError::CannotCompare(view_type(l), view_type(r)))),
    }
}

/// The result of a binary operation, or `None` where the float arithmetic decides it.
/// The arithmetic operators, `^` and the comparisons take two ints or two
/// floats, or an int and a float, the int then converted to a float; `and`
/// and `or` two bools (both operands are evaluated); `:`
/// concatenates the printed texts of any two values.
pub open spec fn binary_view<F>(op: BinaryOp, l: ValueView<F>, r: ValueView<F>) -> Option<
    Result<ValueView<F>, RuntimeError>,
> {
    match op {
        BinaryOp::Pow => match (l, r) {
            (ValueView::Int(a), ValueView::Int(b)) => Some(int_pow(a, b)),
            (ValueView::Float(_), ValueView::Float(_)) => None,
            (ValueView::Int(_), ValueView::Float(_)) => None,
            (ValueView::Float(_), ValueView::Int(_)) => None,
            _ => Some(
                Err(RuntimeError::OperatorMismatch(Operator::Pow, view_type(l), view_type(r))),
            ),
        },
        BinaryOp::Mul | BinaryOp::Div | BinaryOp::Mod | BinaryOp::Add | BinaryOp::Sub => match (
            l,
            r,
        ) {
            (ValueView::Int(a), ValueView::Int(b)) => Some(int_arith(op, a, b)),
            (ValueView::Float(_), ValueView::Float(_)) => None,
            (ValueView::Int(_), ValueView::Float(_)) => None,
            (ValueView::Float(_), ValueView::Int(_)) => None,
            _ => Some(
                Err(RuntimeError::OperatorMismatch(operator_of(op), view_type(l), view_type(r))),
            ),
        },
        BinaryOp::Lt | BinaryOp::Le | BinaryOp::Gt | BinaryOp::Ge => match (l, r) {
            (ValueView::Int(a), ValueView::Int(b)) => Some(
                Ok(
                    ValueView::Bool(
                        match op {
                            BinaryOp::Lt => a < b,
                            BinaryOp::Le => a <= b,
                            BinaryOp::Gt => a > b,
                            _ => a >= b,
                        },
                    ),
                ),
            ),
            (ValueView::Float(_), ValueView::Float(_)) => None,
            (ValueView::Int(_), ValueView::Float(_)) => None,
            (ValueView::Float(_), ValueView::Int(_)) => None,
            _ => Some(Err(RuntimeError::CannotCompare(view_type(l), view_type(r)))),
        },
        BinaryOp::Eq | BinaryOp::Ne => match equal_view(l, r) {
            Some(Ok(b)) => Some(
                Ok(
                    ValueView::Bool(
                        if op == BinaryOp::Eq {
                            b
                        } else {
                            !b
                        },
                    ),
                ),
            ),
            Some(Err(e)) => Some(Err(e)),
            None => None,
        },
        BinaryOp::And | BinaryOp::Or => match (l, r) {
            (ValueView::Bool(a), ValueView::Bool(b)) => Some(
                Ok(
                    ValueView::Bool(
                        if op == BinaryOp::And {
                            a && b
                        } else {
                            a || b
                        },
                    ),
                ),
            ),
            _ => Some(
                Err(RuntimeError::OperatorMismatch(operator_of(op), view_type(l), view_type(r))),
            ),
        },
        BinaryOp::Concat => match (display(l), display(r)) {
            (Some(a), Some(b)) => Some(Ok(ValueView::Str(a + b))),
            _ => None,
        },
    }
}

/// The type of what `op` gives where the float arithmetic decides its value:
/// a float for arithmetic, a bool for a comparison, a string for `:`.
pub open spec fn undecided_type(op: BinaryOp) -> Type {
    match op {
        BinaryOp::Pow | BinaryOp::Mul | BinaryOp::Div | BinaryOp::Mod | BinaryOp::Add
        | BinaryOp::Sub => Type::Float,
        BinaryOp::Concat => Type::String,
        _ => Type::Bool,
    }
}

/// `-v`: integers (but `i32::MIN`) and floats.
pub open spec fn neg_view<F>(v: ValueView<F>) -> Option<Result<ValueView<F>, RuntimeError>> {
    match v {
        ValueView::Int(i) => Some(
            if i == i32::MIN {
                Err(RuntimeError::Overflow(Operator::Neg))
            } else {
                Ok(ValueView::Int((-i) as i32))
            },
        ),
        ValueView::Float(_) => None,
        _ => Some(Err(RuntimeError::UnaryMismatch(Operator::Neg, view_type(v)))),
    }
}

/// `not v`: bools only.
pub open spec fn not_view<F>(v: ValueView<F>) -> Result<ValueView<F>, RuntimeError> {
    match v {
        ValueView::Bool(b) => Ok(ValueView::Bool(!b)),
        _ => Err(RuntimeError::UnaryMismatch(Operator::Not, view_type(v))),
    }
}

/// Conversion of `v` to type `to`: only float to int and int to float, both
/// decided by the float arithmetic.
pub open spec fn cast_view<F>(v: ValueView<F>, to: Type) -> Option<Result<ValueView<F>, RuntimeError>> {
    match (to, v) {
        (Type::Int, ValueView::Float(_)) => None,
        (Type::Float, ValueView::Int(_)) => None,
        _ => Some(Err(RuntimeError::CannotConvert(view_type(v), to))),
    }
}

/// The value a literal's text denotes: a signed int that fits an `i32`, `true`,
/// `false`, a double-quoted string or a single-quoted char with its escapes
/// resolved; `None` for any other text, which the float arithmetic parses.
pub open spec fn literal_view<F>(text: String) -> Option<Result<ValueView<F>, RuntimeError>> {
    let s = text@;
    if signed_value(s) is Some && i32::MIN <= signed_value(s)->0 <= i32::MAX {
        Some(Ok(ValueView::Int(signed_value(s)->0 as i32)))
    } else if s == "true"@ {
        Some(Ok(ValueView::Bool(true)))
    } else if s == "false"@ {
        Some(Ok(ValueView::Bool(false)))
    } else if s.len() >= 2 && s[0] == '"' && s.last() == '"' {
        match unescaped(s.subrange(1, s.len() - 1)) {
            Some(t) => Some(Ok(ValueView::Str(t))),
            None => Some(Err(RuntimeError::InvalidLiteral(text))),
        }
    } else if s.len() >= 3 && s[0] == '\'' && s.last() == '\'' {
        Some(char_literal(text, unescaped(s)))
    } else {
        None
    }
}

/// The char a single-quoted literal `text` denotes, given its text with the
/// escapes resolved (`None` where an escape is malformed): the character
/// after the opening quote.
pub open spec fn char_literal<F>(text: String, u: Option<Seq<char>>) -> Result<ValueView<F>, RuntimeError> {
    match u {
        Some(u) => if u.len() >= 2 {
            Ok(ValueView::Char(u[1]))
        } else {
            Err(RuntimeError::InvalidLiteral(text))
        },
        None => Err(RuntimeError::InvalidLiteral(text)),
    }
}

/// `r` is what the float arithmetic's `parse_float` gives on a text that
/// holds the characters `text`.
pub open spec fn parse_gives<F: FloatArith>(text: Seq<char>, r: Option<F>) -> bool {
    exists|t: &str| #[trigger] call_ensures(F::parse_float, (t,), r) && t@ == text
}

/// `g` is a result the float arithmetic's `float_neg` gives on `a`.
pub open spec fn neg_gives<F: FloatArith>(a: F, g: F) -> bool {
    call_ensures(F::float_neg, (&a,), g)
}

/// `g` is a result the float arithmetic's `from_int` gives on `i`.
pub open spec fn from_int_gives<F: FloatArith>(i: i32, g: F) -> bool {
    call_ensures(F::from_int, (i,), g)
}

/// `k` is a result the float arithmetic's `to_int` gives on `a`.
pub open spec fn to_int_gives<F: FloatArith>(a: F, k: i32) -> bool {
    call_ensures(F::to_int, (&a,), k)
}

/// `g` is a result the float arithmetic gives for the operator `op` on `a`
/// and `b`: `float_pow`, `float_mul`, `float_div`, `float_rem`, `float_add`
/// or `float_sub`.
pub open spec fn arith_gives<F: FloatArith>(op: BinaryOp, a: F, b: F, g: F) -> bool {
    match op {
        BinaryOp::Pow => call_ensures(F::float_pow, (&a, &b), g),
        BinaryOp::Mul => call_ensures(F::float_mul, (&a, &b), g),
        BinaryOp::Div => call_ensures(F::float_div, (&a, &b), g),
        BinaryOp::Mod => call_ensures(F::float_rem, (&a, &b), g),
        BinaryOp::Add => call_ensures(F::float_add, (&a, &b), g),
        _ => call_ensures(F::float_sub, (&a, &b), g),
    }
}

/// `x` is a result the float arithmetic gives for the comparison `op` of `a`
/// with `b`: `a < b` and `a <= b` are `float_lt` and `float_le`, `a > b` and
/// `a >= b` are `float_lt` and `float_le` of `b` with `a`.
pub open spec fn cmp_gives<F: FloatArith>(op: BinaryOp, a: F, b: F, x: bool) -> bool {
    match op {
        BinaryOp::Lt => call_ensures(F::float_lt, (&a, &b), x),
        BinaryOp::Le => call_ensures(F::float_le, (&a, &b), x),
        BinaryOp::Gt => call_ensures(F::float_lt, (&b, &a), x),
        _ => call_ensures(F::float_le, (&b, &a), x),
    }
}

/// `x` is a result the float arithmetic's `float_eq` gives on `a` and `b`.
pub open spec fn eq_gives<F: FloatArith>(a: F, b: F, x: bool) -> bool {
    call_ensures(F::float_eq, (&a, &b), x)
}

/// `s` is a text the float arithmetic's `float_text` gives for `a`.
pub open spec fn text_gives<F: FloatArith>(a: F, s: Seq<char>) -> bool {
    exists|t: String| #[trigger] call_ensures(F::float_text, (&a,), t) && t@ == s
}

/// `s` is a text `v` is printed as: its fixed text, or for a float one that
/// `float_text` gives.
pub open spec fn printed_as<F: FloatArith>(v: ValueView<F>, s: Seq<char>) -> bool {
    match v {
        ValueView::Float(a) => text_gives(a, s),
        _ => display(v) == Some(s),
    }
}

/// `g` is `v` taken as a float: `v` itself, or what `from_int` gives on an int.
pub open spec fn as_float<F: FloatArith>(v: ValueView<F>, g: F) -> bool {
    match v {
        ValueView::Float(a) => g == a,
        ValueView::Int(i) => from_int_gives(i, g),
        _ => false,
    }
}

/// `s` is the printed text of `l` followed by that of `r`.
pub open spec fn joins<F: FloatArith>(l: ValueView<F>, r: ValueView<F>, s: Seq<char>) -> bool {
    exists|a: Seq<char>, b: Seq<char>|
        #![trigger a + b]
        s == a + b && printed_as(l, a) && printed_as(r, b)
}

/// What `op` gives on `l` and `r` where the float arithmetic decides it: the
/// float operation's result on the operands taken as floats; for `==` and
/// `!=` on two floats what `float_eq` gives, or its negation; for `:`, the
/// string that joins the printed texts of the operands.
pub open spec fn undecided_allows<F: FloatArith>(op: BinaryOp, l: ValueView<F>, r: ValueView<F>, v: ValueView<F>) -> bool {
    &&& view_type(v) == undecided_type(op)
    &&& match op {
        BinaryOp::Pow | BinaryOp::Mul | BinaryOp::Div | BinaryOp::Mod | BinaryOp::Add
        | BinaryOp::Sub => v matches ValueView::Float(g) && exists|a: F, b: F|
            #![trigger as_float(l, a), as_float(r, b)]
            as_float(l, a) && as_float(r, b) && arith_gives(op, a, b, g),
        BinaryOp::Lt | BinaryOp::Le | BinaryOp::Gt | BinaryOp::Ge => v matches ValueView::Bool(x)
            && exists|a: F, b: F|
            #![trigger as_float(l, a), as_float(r, b)]
            as_float(l, a) && as_float(r, b) && cmp_gives(op, a, b, x),
        BinaryOp::Eq => v matches ValueView::Bool(x) && (l, r) matches (
            ValueView::Float(a),
            ValueView::Float(b),
        ) && eq_gives(a, b, x),
        BinaryOp::Ne => v matches ValueView::Bool(x) && (l, r) matches (
            ValueView::Float(a),
            ValueView::Float(b),
        ) && eq_gives(a, b, !x),
        BinaryOp::Concat => v matches ValueView::Str(s) && joins(l, r, s),
        _ => true,
    }
}

/// What negating `v` gives where the float arithmetic decides it: what
/// `float_neg` gives on the float.
pub open spec fn neg_allows<F: FloatArith>(v: ValueView<F>, w: ValueView<F>) -> bool {
    v matches ValueView::Float(a) && w matches ValueView::Float(g) && neg_gives(a, g)
}

/// What converting `v` to `to` gives where the float arithmetic decides it:
/// `from_int` of an int converted to a float, `to_int` of a float converted
/// to an int.
pub open spec fn cast_allows<F: FloatArith>(v: ValueView<F>, to: Type, w: ValueView<F>) -> bool {
    match (v, w) {
        (ValueView::Int(i), ValueView::Float(g)) => to == Type::Float && from_int_gives(i, g),
        (ValueView::Float(a), ValueView::Int(k)) => to == Type::Int && to_int_gives(a, k),
        _ => false,
    }
}

/// What an int or a bool is printed as reads back as that value: an int's
/// text is the literal of that int, and a bool's text is the word the lexer
/// reads as the literal of that bool.
pub proof fn law_printed_values_read_back<F>(v: ValueView<F>)
    ensures
        v matches ValueView::Int(i) ==> (display(v) matches Some(s) && signed_value(s) == Some(
            i as int,
        )),
        v matches ValueView::Bool(b) ==> (display(v) matches Some(s) && word_token(s) == if b {
            Tok::<Seq<char>>::True
        } else {
            Tok::<Seq<char>>::False
        }),
{
    match v {
        ValueView::Int(i) => {
            law_int_text_reads_back(i as int);
        },
        ValueView::Bool(b) => {
            reveal_strlit("let");
            reveal_strlit("if");
            reveal_strlit("else");
            reveal_strlit("while");
            reveal_strlit("print");
            reveal_strlit("to_str");
            reveal_strlit("true");
            reveal_strlit("false");
        },
        _ => {},
    }
}

/// Absolute value.
pub open spec fn abs(x: int) -> int {
    if x < 0 {
        -x
    } else {
        x
    }
}

proof fn lemma_pow_grows(a: int, k: nat, j: nat)
    requires
        abs(a) >= 2,
        k < j,
    ensures
        abs(pow(a, j)) >= 2 * abs(pow(a, k)),
    decreases j - k,
{
    reveal(pow);
    let p = pow(a, (j - 1) as nat);
    assert(pow(a, j) == a * p);
    assert(abs(a * p) >= 2 * abs(p)) by (nonlinear_arith)
        requires
            abs(a) >= 2,
    ;
    if j > k + 1 {
        lemma_pow_grows(a, k, (j - 1) as nat);
    }
}

proof fn lemma_pow_unit(a: int, e: nat)
    requires
        -1 <= a <= 1,
    ensures
        a == 0 ==> pow(a, e) == if e == 0 {
            1int
        } else {
            0int
        },
        a == 1 ==> pow(a, e) == 1,
        a == -1 ==> pow(a, e) == if e % 2 == 0 {
            1int
        } else {
            -1int
        },
    decreases e,
{
    reveal(pow);
    if e > 0 {
        lemma_pow_unit(a, (e - 1) as nat);
    }
}

impl<F: FloatArith> Value<F> {
    /// The type of the value.
    pub fn value_type(&self) -> (r: Type)
        ensures
            r == view_type(self@),
    {
        match self {
            Value::Int(_) => Type::Int,
            Value::Float(_) => Type::Float,
            Value::Bool(_) => Type::Bool,
            Value::String(_) => Type::String,
            Value::Char(_) => Type::Char,
            Value::Void => Type::Void,
        }
    }

    /// A copy of the value.
    pub fn duplicate(&self) -> (r: Self)
        ensures
            r@ == self@,
    {
        match self {
            Value::Int(i) => Value::Int(*i),
            Value::Float(f) => Value::Float(*f),
            Value::Bool(b) => Value::Bool(*b),
            Value::String(s) => Value::String(s.clone()),
            Value::Char(c) => Value::Char(*c),
            Value::Void => Value::Void,
        }
    }

    /// The value a literal's text denotes.
    pub fn from_str(text: &String) -> (r: Result<Self, RuntimeError>)
        ensures
            literal_view::<F>(*text) matches Some(x) ==> outcome(r) == x,
            literal_view::<F>(*text) is None ==> match r {
                Ok(v) => v is Float,
                Err(e) => e == RuntimeError::InvalidLiteral(*text),
            },
            literal_view::<F>(*text) is None ==> match r {
                Ok(v) => v@ matches ValueView::Float(g) && parse_gives(text@, Some(g)),
                Err(e) => parse_gives::<F>(text@, None),
            },
    {
        let s = text.as_str();
        let n = s.unicode_len();
        match parse_i32(s) {
            Some(i) => {
                return Ok(Value::Int(i));
            },
            None => {},
        }
        if str_eq(s, "true") {
            return Ok(Value::Bool(true));
        }
        if str_eq(s, "false") {
            return Ok(Value::Bool(false));
        }
        if n >= 2 && s.get_char(0) == '"' && s.get_char(n - 1) == '"' {
            return match unescape(s.substring_char(1, n - 1)) {
                Some(t) => Ok(Value::String(t)),
                None => Err(RuntimeError::InvalidLiteral(text.clone())),
            };
        }
        if n >= 3 && s.get_char(0) == '\'' && s.get_char(n - 1) == '\'' {
            return Self::char_from_unescaped(text, unescape(s));
        }
        let parsed = F::parse_float(s);
        proof {
            assert(call_ensures(F::parse_float, (s,), parsed) && s@ == text@);
        }
        match parsed {
            Some(f) => Ok(Value::Float(f)),
            None => Err(RuntimeError::InvalidLiteral(text.clone())),
        }
    }

    /// The char a single-quoted literal `text` denotes, from its text with the
    /// escapes resolved (`None` where an escape is malformed).
    pub fn char_from_unescaped(text: &String, u: Option<String>) -> (r: Result<Self, RuntimeError>)
        ensures
            outcome(r) == char_literal::<F>(
                *text,
                match u {
                    Some(x) => Some(x@),
                    None => None,
                },
            ),
    {
        match u {
            Some(u) => {
                let u = u.as_str();
                if u.unicode_len() >= 2 {
                    Ok(Value::Char(u.get_char(1)))
                } else {
                    Err(RuntimeError::InvalidLiteral(text.clone()))
                }
            },
            None => Err(RuntimeError::InvalidLiteral(text.clone())),
        }
    }

    /// The text the value is printed as.
    pub fn fmt(&self) -> (r: String)
        ensures
            display(self@) matches Some(t) ==> r@ == t,
            printed_as(self@, r@),
    {
        match self {
            Value::Int(i) => i32_text(*i),
            Value::Float(f) => f.float_text(),
            Value::Bool(b) => if *b {
                String::from_str("true")
            } else {
                String::from_str("false")
            },
            Value::String(s) => s.clone(),
            Value::Char(c) => {
                let mut t = String::new();
                push_char(&mut t, *c);
                assert(t@ =~= seq![*c]);
                t
            },
            Value::Void => String::from_str("()"),
        }
    }

    /// `self ^ rhs`; an int raised to an int needs an exponent of at least 0.
    pub fn pow(self, rhs: Self) -> (r: Result<Self, RuntimeError>)
        requires
            self@ is Int ==> (rhs@ matches ValueView::Int(e) ==> e >= 0),
        ensures
            binary_view(BinaryOp::Pow, self@, rhs@) matches Some(x) ==> outcome(r) == x,
            binary_view(BinaryOp::Pow, self@, rhs@) is None ==> (r matches Ok(v) && undecided_allows(
                BinaryOp::Pow,
                self@,
                rhs@,
                v@,
            )),
    {
        match (&self, &rhs) {
            (Value::Int(a), Value::Int(b)) => match int_pow_exec(*a, *b) {
                Ok(v) => Ok(Value::Int(v)),
                Err(e) => Err(e),
            },
            (Value::Float(a), Value::Float(b)) => {
                let g = a.float_pow(b);
                proof {
                    assert(as_float(self@, *a) && as_float(rhs@, *b));
                }
                Ok(Value::Float(g))
            },
            (Value::Int(a), Value::Float(b)) => {
                let c = F::from_int(*a);
                let g = c.float_pow(b);
                proof {
                    assert(as_float(self@, c) && as_float(rhs@, *b));
                }
                Ok(Value::Float(g))
            },
            (Value::Float(a), Value::Int(b)) => {
                let c = F::from_int(*b);
                let g = a.float_pow(&c);
                proof {
                    assert(as_float(self@, *a) && as_float(rhs@, c));
                }
                Ok(Value::Float(g))
            },
            _ => Err(RuntimeError::OperatorMismatch(Operator::Pow, self.value_type(), rhs.value_type())),
        }
    }

    fn arith(self, op: BinaryOp, rhs: Self) -> (r: Result<Self, RuntimeError>)
        requires
            op == BinaryOp::Mul || op == BinaryOp::Div || op == BinaryOp::Mod || op == BinaryOp::Add
                || op == BinaryOp::Sub,
        ensures
            binary_view(op, self@, rhs@) matches Some(x) ==> outcome(r) == x,
            binary_view(op, self@, rhs@) is None ==> (r matches Ok(v) && view_type(v@)
                == undecided_type(op)),
            binary_view(op, self@, rhs@) is None ==> (r matches Ok(v) && undecided_allows(
                op,
                self@,
                rhs@,
                v@,
            )),
    {
        let operator = match op {
            BinaryOp::Mul => Operator::Mul,
            BinaryOp::Div => Operator::Div,
            BinaryOp::Mod => Operator::Rem,
            BinaryOp::Add => Operator::Add,
            _ => Operator::Sub,
        };
        match (&self, &rhs) {
            (Value::Int(a), Value::Int(b)) => {
                let (a, b) = (*a, *b);
                let res = match op {
                    BinaryOp::Mul => a.checked_mul(b),
                    BinaryOp::Div => {
                        if b == 0 {
                            return Err(RuntimeError::DivisionByZero(Operator::Div));
                        }
                        a.checked_div(b)
                    },
                    BinaryOp::Mod => {
                        if b == 0 {
                            return Err(RuntimeError::DivisionByZero(Operator::Rem));
                        }
                        a.checked_rem(b)
                    },
                    BinaryOp::Add => a.checked_add(b),
                    _ => a.checked_sub(b),
                };
                match res {
                    Some(v) => Ok(Value::Int(v)),
                    None => Err(RuntimeError::Overflow(operator)),
                }
            },
            (Value::Float(a), Value::Float(b)) => {
                let g = float_arith(op, a, b);
                proof {
                    assert(as_float(self@, *a) && as_float(rhs@, *b));
                }
                Ok(Value::Float(g))
            },
            (Value::Int(a), Value::Float(b)) => {
                let c = F::from_int(*a);
                let g = float_arith(op, &c, b);
                proof {
                    assert(as_float(self@, c) && as_float(rhs@, *b));
                }
                Ok(Value::Float(g))
            },
            (Value::Float(a), Value::Int(b)) => {
                let c = F::from_int(*b);
                let g = float_arith(op, a, &c);
                proof {
                    assert(as_float(self@, *a) && as_float(rhs@, c));
                }
                Ok(Value::Float(g))
            },
            _ => Err(RuntimeError::OperatorMismatch(operator, self.value_type(), rhs.value_type())),
        }
    }

    /// `self * rhs`.
    pub fn mul(self, rhs: Self) -> (r: Result<Self, RuntimeError>)
        ensures
            binary_view(BinaryOp::Mul, self@, rhs@) matches Some(x) ==> outcome(r) == x,
            binary_view(BinaryOp::Mul, self@, rhs@) is None ==> (r matches Ok(v) && view_type(v@)
                == undecided_type(BinaryOp::Mul)),
            binary_view(BinaryOp::Mul, self@, rhs@) is None ==> (r matches Ok(v) && undecided_allows(
                BinaryOp::Mul,
                self@,
                rhs@,
                v@,
            )),
    {
        self.arith(BinaryOp::Mul, rhs)
    }

    /// `self / rhs`.
    pub fn div(self, rhs: Self) -> (r: Result<Self, RuntimeError>)
        ensures
            binary_view(BinaryOp::Div, self@, rhs@) matches Some(x) ==> outcome(r) == x,
            binary_view(BinaryOp::Div, self@, rhs@) is None ==> (r matches Ok(v) && view_type(v@)
                == undecided_type(BinaryOp::Div)),
            binary_view(BinaryOp::Div, self@, rhs@) is None ==> (r matches Ok(v) && undecided_allows(
                BinaryOp::Div,
                self@,
                rhs@,
                v@,
            )),
    {
        self.arith(BinaryOp::Div, rhs)
    }

    /// `self mod rhs`.
    pub fn rem(self, rhs: Self) -> (r: Result<Self, RuntimeError>)
        ensures
            binary_view(BinaryOp::Mod, self@, rhs@) matches Some(x) ==> outcome(r) == x,
            binary_view(BinaryOp::Mod, self@, rhs@) is None ==> (r matches Ok(v) && view_type(v@)
                == undecided_type(BinaryOp::Mod)),
            binary_view(BinaryOp::Mod, self@, rhs@) is None ==> (r matches Ok(v) && undecided_allows(
                BinaryOp::Mod,
                self@,
                rhs@,
                v@,
            )),
    {
        self.arith(BinaryOp::Mod, rhs)
    }

    /// `self + rhs`.
    pub fn add(self, rhs: Self) -> (r: Result<Self, RuntimeError>)
        ensures
            binary_view(BinaryOp::Add, self@, rhs@) matches Some(x) ==> outcome(r) == x,
            binary_view(BinaryOp::Add, self@, rhs@) is None ==> (r matches Ok(v) && view_type(v@)
                == undecided_type(BinaryOp::Add)),
            binary_view(BinaryOp::Add, self@, rhs@) is None ==> (r matches Ok(v) && undecided_allows(
                BinaryOp::Add,
                self@,
                rhs@,
                v@,
            )),
    {
        self.arith(BinaryOp::Add, rhs)
    }

    /// `self - rhs`.
    pub fn sub(self, rhs: Self) -> (r: Result<Self, RuntimeError>)
        ensures
            binary_view(BinaryOp::Sub, self@, rhs@) matches Some(x) ==> outcome(r) == x,
            binary_view(BinaryOp::Sub, self@, rhs@) is None ==> (r matches Ok(v) && view_type(v@)
                == undecided_type(BinaryOp::Sub)),
            binary_view(BinaryOp::Sub, self@, rhs@) is None ==> (r matches Ok(v) && undecided_allows(
                BinaryOp::Sub,
                self@,
                rhs@,
                v@,
            )),
    {
        self.arith(BinaryOp::Sub, rhs)
    }

    /// `-self`.
    pub fn neg(self) -> (r: Result<Self, RuntimeError>)
        ensures
            neg_view(self@) matches Some(x) ==> outcome(r) == x,
            neg_view(self@) is None ==> (r matches Ok(v) && v is Float),
            neg_view(self@) is None ==> (r matches Ok(v) && neg_allows(self@, v@)),
    {
        match &self {
            Value::Int(i) => if *i == i32::MIN {
                Err(RuntimeError::Overflow(Operator::Neg))
            } else {
                Ok(Value::Int(-*i))
            },
            Value::Float(f) => Ok(Value::Float(f.float_neg())),
            _ => Err(RuntimeError::UnaryMismatch(Operator::Neg, self.value_type())),
        }
    }

    /// `not self`.
    pub fn not(self) -> (r: Result<Self, RuntimeError>)
        ensures
            outcome(r) == not_view(self@),
    {
        match &self {
            Value::Bool(b) => Ok(Value::Bool(!*b)),
            _ => Err(RuntimeError::UnaryMismatch(Operator::Not, self.value_type())),
        }
    }

    /// Whether two values of the same type are equal.
    pub fn eq(&self, other: &Self) -> (r: Result<bool, RuntimeError>)
        requires
            view_type(self@) == view_type(other@),
        ensures
            equal_view(self@, other@) matches Some(x) ==> r == x,
            equal_view(self@, other@) is None ==> r is Ok,
            equal_view(self@, other@) is None ==> (r matches Ok(x) && undecided_allows(
                BinaryOp::Eq,
                self@,
                other@,
                ValueView::Bool(x),
            )),
    {
        match (self, other) {
            (Value::Int(a), Value::Int(b)) => Ok(*a == *b),
            (Value::Float(a), Value::Float(b)) => Ok(a.float_eq(b)),
            (Value::Bool(a), Value::Bool(b)) => Ok(*a == *b),
            (Value::String(a), Value::String(b)) => Ok(*a == *b),
            (Value::Char(a), Value::Char(b)) => Ok(*a == *b),
            (Value::Void, Value::Void) => Ok(true),
            _ => Err(RuntimeError::CannotCompare(self.value_type(), other.value_type())),
        }
    }

    /// The comparison `op` (one of `<`, `<=`, `>`, `>=`) of two ints or two floats.
    pub fn partial_cmp(&self, op: BinaryOp, other: &Self) -> (r: Result<bool, RuntimeError>)
        requires
            op == BinaryOp::Lt || op == BinaryOp::Le || op == BinaryOp::Gt || op == BinaryOp::Ge,
        ensures
            binary_view(op, self@, other@) matches Some(x) ==> match x {
                Ok(ValueView::Bool(b)) => r == Ok::<bool, RuntimeError>(b),
                Err(e) => r == Err::<bool, RuntimeError>(e),
                _ => false,
            },
            binary_view(op, self@, other@) is None ==> r is Ok,
            binary_view(op, self@, other@) is None ==> (r matches Ok(x) && undecided_allows(
                op,
                self@,
                other@,
                ValueView::Bool(x),
            )),
    {
        match (self, other) {
            (Value::Int(a), Value::Int(b)) => Ok(
                match op {
                    BinaryOp::Lt => *a < *b,
                    BinaryOp::Le => *a <= *b,
                    BinaryOp::Gt => *a > *b,
                    _ => *a >= *b,
                },
            ),
            (Value::Float(a), Value::Float(b)) => {
                let x = float_cmp(op, a, b);
                proof {
                    assert(as_float(self@, *a) && as_float(other@, *b));
                }
                Ok(x)
            },
            (Value::Int(a), Value::Float(b)) => {
                let c = F::from_int(*a);
                let x = float_cmp(op, &c, b);
                proof {
                    assert(as_float(self@, c) && as_float(other@, *b));
                }
                Ok(x)
            },
            (Value::Float(a), Value::Int(b)) => {
                let c = F::from_int(*b);
                let x = float_cmp(op, a, &c);
                proof {
                    assert(as_float(self@, *a) && as_float(other@, c));
                }
                Ok(x)
            },
            _ => Err(RuntimeError::CannotCompare(self.value_type(), other.value_type())),
        }
    }

    /// `self and rhs`; both operands are already evaluated.
    pub fn bitand(self, rhs: Self) -> (r: Result<Self, RuntimeError>)
        ensures
            binary_view(BinaryOp::And, self@, rhs@) matches Some(x) ==> outcome(r) == x,
    {
        match (&self, &rhs) {
            (Value::Bool(a), Value::Bool(b)) => Ok(Value::Bool(*a && *b)),
            _ => Err(
                RuntimeError::OperatorMismatch(Operator::BitAnd, self.value_type(), rhs.value_type()),
            ),
        }
    }

    /// `self or rhs`; both operands are already evaluated.
    pub fn bitor(self, rhs: Self) -> (r: Result<Self, RuntimeError>)
        ensures
            binary_view(BinaryOp::Or, self@, rhs@) matches Some(x) ==> outcome(r) == x,
    {
        match (&self, &rhs) {
            (Value::Bool(a), Value::Bool(b)) => Ok(Value::Bool(*a || *b)),
            _ => Err(
                RuntimeError::OperatorMismatch(Operator::BitOr, self.value_type(), rhs.value_type()),
            ),
        }
    }

    /// `self : rhs`: the concatenation of the printed texts.
    pub fn concat(&self, rhs: &Self) -> (r: Self)
        ensures
            binary_view(BinaryOp::Concat, self@, rhs@) matches Some(x) ==> outcome(Ok(r)) == x,
            r@ matches ValueView::Str(s) && joins(self@, rhs@, s),
    {
        let mut s = self.fmt();
        let t = rhs.fmt();
        let ghost a = s@;
        s.append(t.as_str());
        assert(s@ == a + t@);
        Value::String(s)
    }

    /// Conversion to `to`: float to int and int to float.
    pub fn cast(self, to: Type) -> (r: Result<Self, RuntimeError>)
        ensures
            cast_view(self@, to) matches Some(x) ==> outcome(r) == x,
            cast_view(self@, to) is None ==> (r matches Ok(v) && view_type(v@) == to),
            cast_view(self@, to) is None ==> (r matches Ok(v) && cast_allows(self@, to, v@)),
    {
        match (to, &self) {
            (Type::Int, Value::Float(f)) => Ok(Value::Int(f.to_int())),
            (Type::Float, Value::Int(i)) => Ok(Value::Float(F::from_int(*i))),
            _ => Err(RuntimeError::CannotConvert(self.value_type(), to)),
        }
    }
}

/// A comparison (`<`, `<=`, `>`, `>=`) of two floats.
fn float_cmp<F: FloatArith>(op: BinaryOp, a: &F, b: &F) -> (r: bool)
    ensures
        cmp_gives(op, *a, *b, r),
{
    match op {
        BinaryOp::Lt => a.float_lt(b),
        BinaryOp::Le => a.float_le(b),
        BinaryOp::Gt => b.float_lt(a),
        _ => b.float_le(a),
    }
}

/// An arithmetic operator on two floats.
fn float_arith<F: FloatArith>(op: BinaryOp, a: &F, b: &F) -> (r: F)
    requires
        op == BinaryOp::Mul || op == BinaryOp::Div || op == BinaryOp::Mod || op == BinaryOp::Add
            || op == BinaryOp::Sub,
    ensures
        arith_gives(op, *a, *b, r),
{
    match op {
        BinaryOp::Mul => a.float_mul(b),
        BinaryOp::Div => a.float_div(b),
        BinaryOp::Mod => a.float_rem(b),
        BinaryOp::Add => a.float_add(b),
        _ => a.float_sub(b),
    }
}

/// `a ^ b` on `i32`.
pub fn int_pow_exec(a: i32, b: i32) -> (r: Result<i32, RuntimeError>)
    ensures
        match int_pow::<u8>(a, b) {
            Ok(ValueView::Int(v)) => r == Ok::<i32, RuntimeError>(v),
            Err(e) => r == Err::<i32, RuntimeError>(e),
            _ => false,
        },
{
    if b < 0 {
        return Err(RuntimeError::NegativeExponent);
    }
    if -1 <= a && a <= 1 {
        proof {
            lemma_pow_unit(a as int, b as nat);
        }
        if a == 0 {
            return Ok(if b == 0 {
                1
            } else {
                0
            });
        } else if a == 1 {
            return Ok(1);
        } else {
            return Ok(if b % 2 == 0 {
                1
            } else {
                -1
            });
        }
    }
    let mut acc: i64 = 1;
    let mut i: i32 = 0;
    proof {
        reveal(pow);
    }
    while i < b
        invariant
            0 <= i <= b,
            abs(a as int) >= 2,
            acc as int == pow(a as int, i as nat),
            i32::MIN <= acc <= i32::MAX,
        decreases b - i,
    {
        proof {
            reveal(pow);
            assert(pow(a as int, (i + 1) as nat) == a * pow(a as int, i as nat));
            assert(-2147483648 * 2147483648 <= acc * a <= 2147483648 * 2147483648) by (nonlinear_arith)
                requires
                    i32::MIN <= acc <= i32::MAX,
                    i32::MIN <= a <= i32::MAX,
            ;
        }
        let next = acc * (a as i64);
        assert((acc as int) * (a as int) == (a as int) * (acc as int)) by (nonlinear_arith);
        assert(next as int == pow(a as int, (i + 1) as nat));
        i = i + 1;
        if next < i32::MIN as i64 || next > i32::MAX as i64 {
            proof {
                if i < b {
                    lemma_pow_grows(a as int, i as nat, b as nat);
                    assert(abs(pow(a as int, b as nat)) >= 2 * abs(next as int));
                }
            }
            return Err(RuntimeError::Overflow(Operator::Pow));
        }
        acc = next;
    }
    Ok(acc as i32)
}

} // verus!
