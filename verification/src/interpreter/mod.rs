pub mod value;

use vstd::prelude::*;
use crate::ast::{BinaryOp, Expr, Stmt, SyntaxTree, UnaryOp};
use crate::memory::{
    assign, declare, law_assign_then_lookup, law_declare_then_lookup, lemma_innermost,
    lemma_map_scopes, lookup, map_scopes, HashMemory, Memory, Scopes,
};
use crate::parser::lexer::lex;
use crate::parser::{parse_failure, parse_program, program_at, program_eqv, ParseError};
use crate::text::decimal_value;
use crate::type_checker::value_type::{cast_type, Type};
use crate::type_checker::{binary_type, expr_type, stmts_effect, unary_type};
use value::{
    arith_gives, cmp_gives, eq_gives, neg_gives, parse_gives,
    binary_view, cast_allows, cast_view, display, literal_view, neg_allows, neg_view, not_view,
    outcome, printed_as, undecided_allows,
    undecided_type,
    view_type, FloatArith, RuntimeError, Value, ValueView,
};

verus! {

/// The state a program runs in: the variables, scope by scope, and the lines
/// printed so far.
pub struct Machine<F> {
    pub mem: Scopes<ValueView<F>>,
    pub out: Seq<Seq<char>>,
}

/// What the float arithmetic gave while an expression was evaluated: a node
/// per expression, holding the outcome of the step the float arithmetic
/// decided there (if any), with the nodes of the first and second operands
/// below it.
#[verifier::reject_recursive_types(F)]
pub enum Picks<F> {
    Node(Result<ValueView<F>, RuntimeError>, Box<Picks<F>>, Box<Picks<F>>),
    Leaf,
}

/// A node with the outcome `x` and the operand nodes `a` and `b`.
pub open spec fn node<F: FloatArith>(x: Result<ValueView<F>, RuntimeError>, a: Picks<F>, b: Picks<F>) -> Picks<F> {
    Picks::Node(x, Box::new(a), Box::new(b))
}

/// The node of the first operand.
pub open spec fn first<F: FloatArith>(p: Picks<F>) -> Picks<F> {
    match p {
        Picks::Node(_, a, _) => *a,
        Picks::Leaf => Picks::Leaf,
    }
}

/// The node of the second operand.
pub open spec fn second<F: FloatArith>(p: Picks<F>) -> Picks<F> {
    match p {
        Picks::Node(_, _, b) => *b,
        Picks::Leaf => Picks::Leaf,
    }
}

/// A step's outcome: the decided one, or else the value recorded in `p`,
/// which may be any value that `allowed` admits.
pub open spec fn settle<F: FloatArith>(
    decided: Option<Result<ValueView<F>, RuntimeError>>,
    allowed: spec_fn(ValueView<F>) -> bool,
    p: Picks<F>,
) -> Option<Result<ValueView<F>, RuntimeError>> {
    match decided {
        Some(x) => Some(x),
        None => match p {
            Picks::Node(Ok(v), _, _) => if allowed(v) {
                Some(Ok(v))
            } else {
                None
            },
            _ => None,
        },
    }
}

/// The outcome of `op` on `l` and `r`: the decided one, or else the value
/// recorded in `p`, which may be any that `undecided_allows`.
pub open spec fn settle_binary<F: FloatArith>(op: BinaryOp, l: ValueView<F>, r: ValueView<F>, p: Picks<F>) -> Option<
    Result<ValueView<F>, RuntimeError>,
> {
    match binary_view(op, l, r) {
        Some(x) => Some(x),
        None => match p {
            Picks::Node(Ok(v), _, _) => if undecided_allows(op, l, r, v) {
                Some(Ok(v))
            } else {
                None
            },
            _ => None,
        },
    }
}

/// A literal's outcome: the value its text denotes, or else what the float
/// arithmetic parsed, which is a float or the literal's rejection.
pub open spec fn literal_with<F: FloatArith>(text: String, p: Picks<F>) -> Option<
    Result<ValueView<F>, RuntimeError>,
> {
    match literal_view::<F>(text) {
        Some(x) => Some(x),
        None => match p {
            Picks::Node(Ok(v), _, _) => if v matches ValueView::Float(g) && parse_gives(
                text@,
                Some(g),
            ) {
                Some(Ok(v))
            } else {
                None
            },
            Picks::Node(Err(e), _, _) => if e == RuntimeError::InvalidLiteral(text) && parse_gives::<F>(
                text@,
                None,
            ) {
                Some(Err(e))
            } else {
                None
            },
            Picks::Leaf => None,
        },
    }
}

/// The outcome of evaluating `e` when the float arithmetic gives what `p`
/// records; `None` where `p` records nothing it could have given. Operands
/// are evaluated left to right and the first error wins.
pub open spec fn eval_with<F: FloatArith>(mem: Scopes<ValueView<F>>, e: Expr, p: Picks<F>) -> Option<
    Result<ValueView<F>, RuntimeError>,
>
    decreases e,
{
    match e {
        Expr::Int(t) => literal_with(t, p),
        Expr::Float(t) => literal_with(t, p),
        Expr::Str(t) => literal_with(t, p),
        Expr::Char(t) => literal_with(t, p),
        Expr::Bool(b) => Some(Ok(ValueView::Bool(b))),
        Expr::Id(name) => match lookup(mem, name@) {
            Some(v) => Some(Ok(v)),
            None => Some(Err(RuntimeError::UnknownVariable(name))),
        },
        Expr::Paren(inner) => eval_with(mem, *inner, p),
        Expr::Unary(op, x) => match eval_with(mem, *x, first(p)) {
            Some(Ok(v)) => match op {
                UnaryOp::Neg => settle(neg_view(v), |w: ValueView<F>| neg_allows(v, w), p),
                UnaryOp::Not => Some(not_view(v)),
            },
            other => other,
        },
        Expr::Binary(op, l, r) => match eval_with(mem, *l, first(p)) {
            Some(Ok(lv)) => match eval_with(mem, *r, second(p)) {
                Some(Ok(rv)) => settle_binary(op, lv, rv, p),
                other => other,
            },
            other => other,
        },
        Expr::Cast(to, x) => match eval_with(mem, *x, first(p)) {
            Some(Ok(v)) => settle(cast_view(v, to), |w: ValueView<F>| cast_allows(v, to, w), p),
            other => other,
        },
        Expr::ToStr(x) => match eval_with(mem, *x, first(p)) {
            Some(Ok(v)) => match display(v) {
                Some(t) => Some(Ok(ValueView::Str(t))),
                None => settle(
                    None,
                    |w: ValueView<F>| w matches ValueView::Str(s) && printed_as(v, s),
                    p,
                ),
            },
            other => other,
        },
    }
}

/// `e` can evaluate to `out`: the value of every step that the float
/// arithmetic does not decide is fixed, and each step it decides gives a
/// result its operation gives on the step's operands.
pub open spec fn evaluates<F: FloatArith>(
    mem: Scopes<ValueView<F>>,
    e: Expr,
    out: Result<ValueView<F>, RuntimeError>,
) -> bool {
    exists|p: Picks<F>| #[trigger] eval_with(mem, e, p) == Some(out)
}

/// What the float arithmetic gave while a statement ran: the picks of the
/// statement's expression, the text a printed float got, and the traces of
/// the block it ran and of what ran after that block (the loop's next round).
#[verifier::reject_recursive_types(F)]
pub enum Trace<F> {
    Step(Picks<F>, Seq<char>, Box<Trace<F>>, Box<Trace<F>>),
    End,
}

/// A step with the picks `p`, the text `t` and the traces `a` and `b`.
pub open spec fn step<F: FloatArith>(p: Picks<F>, t: Seq<char>, a: Trace<F>, b: Trace<F>) -> Trace<F> {
    Trace::Step(p, t, Box::new(a), Box::new(b))
}

/// The picks of a trace's expression.
pub open spec fn picks_of<F: FloatArith>(t: Trace<F>) -> Picks<F> {
    match t {
        Trace::Step(p, _, _, _) => p,
        Trace::End => Picks::Leaf,
    }
}

/// The text a trace gives a printed float.
pub open spec fn text_of<F: FloatArith>(t: Trace<F>) -> Seq<char> {
    match t {
        Trace::Step(_, s, _, _) => s,
        Trace::End => Seq::empty(),
    }
}

/// The trace of the block run first.
pub open spec fn inner_of<F: FloatArith>(t: Trace<F>) -> Trace<F> {
    match t {
        Trace::Step(_, _, a, _) => *a,
        Trace::End => Trace::End,
    }
}

/// The trace of what runs next.
pub open spec fn next_of<F: FloatArith>(t: Trace<F>) -> Trace<F> {
    match t {
        Trace::Step(_, _, _, b) => *b,
        Trace::End => Trace::End,
    }
}

/// Effect of running one statement with `fuel` iterations allowed to each
/// loop, when the float arithmetic gives what `t` records: the state
/// afterwards and the statement's value. A declaration binds in the innermost
/// scope whatever the declared type; `if` runs its body only on `true`;
/// `while` repeats its body while its condition is `true`; `print` appends
/// the printed text of its value to the output.
pub open spec fn run_with<F: FloatArith>(fuel: nat, m: Machine<F>, s: Stmt, t: Trace<F>) -> Option<
    Result<(Machine<F>, ValueView<F>), RuntimeError>,
>
    decreases fuel, s, 0nat,
{
    match s {
        Stmt::Decl(id, _, e) => match eval_with(m.mem, e, picks_of(t)) {
            Some(Ok(v)) => Some(
                Ok((Machine { mem: declare(m.mem, id@, v), out: m.out }, ValueView::Void)),
            ),
            Some(Err(err)) => Some(Err(err)),
            None => None,
        },
        Stmt::Mutation(id, e) => match eval_with(m.mem, e, picks_of(t)) {
            Some(Ok(v)) => match lookup(m.mem, id@) {
                Some(_) => Some(
                    Ok((Machine { mem: assign(m.mem, id@, v), out: m.out }, ValueView::Void)),
                ),
                None => Some(Err(RuntimeError::UnknownVariable(id))),
            },
            Some(Err(err)) => Some(Err(err)),
            None => None,
        },
        Stmt::Print(e) => match eval_with(m.mem, e, picks_of(t)) {
            Some(Ok(v)) => match display(v) {
                Some(x) => Some(Ok((Machine { mem: m.mem, out: m.out.push(x) }, ValueView::Void))),
                None => if printed_as(v, text_of(t)) {
                    Some(
                        Ok((Machine { mem: m.mem, out: m.out.push(text_of(t)) }, ValueView::Void)),
                    )
                } else {
                    None
                },
            },
            Some(Err(err)) => Some(Err(err)),
            None => None,
        },
        Stmt::If(cond, body) => match eval_with(m.mem, cond, picks_of(t)) {
            Some(Ok(ValueView::Bool(true))) => match block_with(
                fuel,
                m,
                body@,
                0,
                ValueView::Void,
                inner_of(t),
            ) {
                Some(Ok((m2, _))) => Some(Ok((m2, ValueView::Void))),
                other => other,
            },
            Some(Ok(_)) => Some(Ok((m, ValueView::Void))),
            Some(Err(err)) => Some(Err(err)),
            None => None,
        },
        Stmt::IfElse(cond, yes, no) => match eval_with(m.mem, cond, picks_of(t)) {
            Some(Ok(ValueView::Bool(true))) => block_with(
                fuel,
                m,
                yes@,
                0,
                ValueView::Void,
                inner_of(t),
            ),
            Some(Ok(_)) => block_with(fuel, m, no@, 0, ValueView::Void, inner_of(t)),
            Some(Err(err)) => Some(Err(err)),
            None => None,
        },
        Stmt::While(cond, body) => match eval_with(m.mem, cond, picks_of(t)) {
            Some(Ok(ValueView::Bool(true))) => if fuel == 0 {
                Some(Err(RuntimeError::OutOfFuel))
            } else {
                match block_with((fuel - 1) as nat, m, body@, 0, ValueView::Void, inner_of(t)) {
                    Some(Ok((m2, _))) => run_with((fuel - 1) as nat, m2, s, next_of(t)),
                    other => other,
                }
            },
            Some(Ok(_)) => Some(Ok((m, ValueView::Void))),
            Some(Err(err)) => Some(Err(err)),
            None => None,
        },
        Stmt::Expr(e) => match eval_with(m.mem, e, picks_of(t)) {
            Some(Ok(v)) => Some(Ok((m, v))),
            Some(Err(err)) => Some(Err(err)),
            None => None,
        },
    }
}

/// Runs `stmts[i..]` in order, where `last` is the value of the statement run
/// before them, statement `i` under the trace `inner_of(t)` and the rest under
/// `next_of(t)`; the value of a block is that of its last statement.
pub open spec fn block_with<F: FloatArith>(
    fuel: nat,
    m: Machine<F>,
    stmts: Seq<Stmt>,
    i: nat,
    last: ValueView<F>,
    t: Trace<F>,
) -> Option<Result<(Machine<F>, ValueView<F>), RuntimeError>>
    decreases fuel, stmts, stmts.len() - i,
{
    if i >= stmts.len() {
        Some(Ok((m, last)))
    } else {
        match run_with(fuel, m, stmts[i as int], inner_of(t)) {
            Some(Ok((m2, v))) => block_with(fuel, m2, stmts, i + 1, v, next_of(t)),
            other => other,
        }
    }
}

/// Running `s` can end in `out`, for some values of the steps the float
/// arithmetic decides.
pub open spec fn runs<F: FloatArith>(
    fuel: nat,
    m: Machine<F>,
    s: Stmt,
    out: Result<(Machine<F>, ValueView<F>), RuntimeError>,
) -> bool {
    exists|t: Trace<F>| #[trigger] run_with(fuel, m, s, t) == Some(out)
}

/// Running `stmts[i..]` can end in `out`, for some values of the steps the
/// float arithmetic decides.
pub open spec fn block_runs<F: FloatArith>(
    fuel: nat,
    m: Machine<F>,
    stmts: Seq<Stmt>,
    i: nat,
    last: ValueView<F>,
    out: Result<(Machine<F>, ValueView<F>), RuntimeError>,
) -> bool {
    exists|t: Trace<F>| #[trigger] block_with(fuel, m, stmts, i, last, t) == Some(out)
}

/// The view of a memory of values.
pub open spec fn mem_view<F: FloatArith>(s: Scopes<Value<F>>) -> Scopes<ValueView<F>> {
    map_scopes(s, |v: Value<F>| v@)
}

/// A run's result together with the state it left.
pub open spec fn ran<F: FloatArith>(r: Result<Value<F>, RuntimeError>, after: Machine<F>) -> Result<
    (Machine<F>, ValueView<F>),
    RuntimeError,
> {
    match r {
        Ok(v) => Ok((after, v@)),
        Err(e) => Err(e),
    }
}

/// `after` is `before` with zero or more lines appended.
pub open spec fn appends_to(before: Seq<Seq<char>>, after: Seq<Seq<char>>) -> bool {
    &&& before.len() <= after.len()
    &&& forall|i: int| 0 <= i < before.len() ==> after[i] == before[i]
}

/// `after` holds as many scopes as `before` and its output extends that of
/// `before`.
pub open spec fn grows<F: FloatArith>(before: Machine<F>, after: Machine<F>) -> bool {
    after.mem.len() == before.mem.len() && appends_to(before.out, after.out)
}

/// A block whose first statement can end in the state `m2` with the value
/// `v` can end as its remaining statements can from there.
proof fn lemma_block_step<F: FloatArith>(
    fuel: nat,
    m: Machine<F>,
    stmts: Seq<Stmt>,
    i: nat,
    last: ValueView<F>,
    m2: Machine<F>,
    v: ValueView<F>,
    next: nat,
)
    requires
        i < stmts.len(),
        next == i + 1,
        runs(fuel, m, stmts[i as int], Ok((m2, v))),
    ensures
        forall|out| #[trigger]
            block_runs(fuel, m2, stmts, next, v, out) ==> block_runs(fuel, m, stmts, i, last, out),
{
    let t1 = choose|t: Trace<F>| #[trigger] run_with(fuel, m, stmts[i as int], t) == Some(
        Ok::<(Machine<F>, ValueView<F>), RuntimeError>((m2, v)),
    );
    assert forall|out| #[trigger]
        block_runs(fuel, m2, stmts, next, v, out) implies block_runs(
        fuel,
        m,
        stmts,
        i,
        last,
        out,
    ) by {
        let t2 = choose|t: Trace<F>| #[trigger] block_with(fuel, m2, stmts, next, v, t) == Some(
            out,
        );
        let t = step(Picks::Leaf, Seq::empty(), t1, t2);
        assert(block_with(fuel, m, stmts, i, last, t) == Some(out));
    }
}

/// A block whose first statement can fail with `err` can fail with it.
proof fn lemma_block_fails<F: FloatArith>(
    fuel: nat,
    m: Machine<F>,
    stmts: Seq<Stmt>,
    i: nat,
    last: ValueView<F>,
    err: RuntimeError,
)
    requires
        i < stmts.len(),
        runs(fuel, m, stmts[i as int], Err(err)),
    ensures
        block_runs(fuel, m, stmts, i, last, Err(err)),
{
    let t1 = choose|t: Trace<F>| #[trigger] run_with(fuel, m, stmts[i as int], t) == Some(
        Err::<(Machine<F>, ValueView<F>), RuntimeError>(err),
    );
    let t = step(Picks::Leaf, Seq::empty(), t1, Trace::End);
    assert(block_with(fuel, m, stmts, i, last, t) == Some(
        Err::<(Machine<F>, ValueView<F>), RuntimeError>(err),
    ));
}

/// A node recording only the outcome `x`.
pub open spec fn single<F: FloatArith>(x: Result<ValueView<F>, RuntimeError>) -> Picks<F> {
    node(x, Picks::Leaf, Picks::Leaf)
}

/// The expression a statement evaluates first: its value, its condition.
pub open spec fn head_expr(s: Stmt) -> Expr {
    match s {
        Stmt::Decl(_, _, e) => e,
        Stmt::Mutation(_, e) => e,
        Stmt::Print(e) => e,
        Stmt::If(c, _) => c,
        Stmt::IfElse(c, _, _) => c,
        Stmt::While(c, _) => c,
        Stmt::Expr(e) => e,
    }
}

/// The operand an expression evaluates first, if it has one.
pub open spec fn first_operand(e: Expr) -> Option<Expr> {
    match e {
        Expr::Unary(_, x) => Some(*x),
        Expr::Cast(_, x) => Some(*x),
        Expr::ToStr(x) => Some(*x),
        Expr::Binary(_, l, _) => Some(*l),
        _ => None,
    }
}

/// An expression whose first operand can fail with `err` can fail with it.
proof fn lemma_operand_fails<F: FloatArith>(mem: Scopes<ValueView<F>>, e: Expr, x: Expr, err: RuntimeError)
    requires
        first_operand(e) == Some(x),
        evaluates(mem, x, Err(err)),
    ensures
        evaluates(mem, e, Err(err)),
{
    let p = choose|p: Picks<F>| #[trigger] eval_with(mem, x, p) == Some(
        Err::<ValueView<F>, RuntimeError>(err),
    );
    assert(eval_with(mem, e, node(Err(err), p, Picks::Leaf)) == Some(
        Err::<ValueView<F>, RuntimeError>(err),
    ));
}

/// A statement whose first expression can fail with `err` can fail with it.
proof fn lemma_head_fails<F: FloatArith>(fuel: nat, m: Machine<F>, s: Stmt, err: RuntimeError)
    requires
        evaluates(m.mem, head_expr(s), Err(err)),
    ensures
        runs(fuel, m, s, Err(err)),
{
    let p = choose|p: Picks<F>| #[trigger] eval_with(m.mem, head_expr(s), p) == Some(
        Err::<ValueView<F>, RuntimeError>(err),
    );
    assert(run_with(fuel, m, s, step(p, Seq::empty(), Trace::End, Trace::End)) == Some(
        Err::<(Machine<F>, ValueView<F>), RuntimeError>(err),
    ));
}

/// A loop whose condition held and whose body ran to the state `m2` can end
/// as the loop can from `m2` with one round fewer.
proof fn lemma_loop_round<F: FloatArith>(
    f: nat,
    m: Machine<F>,
    s: Stmt,
    cond: Expr,
    body: Vec<Stmt>,
    p: Picks<F>,
    t1: Trace<F>,
    m2: Machine<F>,
    w: ValueView<F>,
)
    requires
        f > 0,
        s == Stmt::While(cond, body),
        eval_with(m.mem, cond, p) == Some(Ok::<ValueView<F>, RuntimeError>(ValueView::Bool(true))),
        block_with((f - 1) as nat, m, body@, 0, ValueView::Void, t1) == Some(
            Ok::<(Machine<F>, ValueView<F>), RuntimeError>((m2, w)),
        ),
    ensures
        forall|out| #[trigger] runs((f - 1) as nat, m2, s, out) ==> runs(f, m, s, out),
{
    assert forall|out| #[trigger] runs((f - 1) as nat, m2, s, out) implies runs(f, m, s, out) by {
        let t2 = choose|t: Trace<F>| #[trigger] run_with((f - 1) as nat, m2, s, t) == Some(out);
        assert(run_with(f, m, s, step(p, Seq::empty(), t1, t2)) == Some(out));
    }
}

/// Running a statement never opens or closes a scope, and only appends to
/// the output, whatever the float arithmetic gives.
#[verifier::rlimit(50)]
pub proof fn law_run_stmt_keeps_scopes<F: FloatArith>(fuel: nat, m: Machine<F>, s: Stmt, t: Trace<F>)
    ensures
        run_with(fuel, m, s, t) matches Some(Ok((m2, v))) ==> m2.mem.len() == m.mem.len()
            && appends_to(m.out, m2.out),
    decreases fuel, s, 0nat,
{
    match s {
        Stmt::Mutation(id, e) => {
            lemma_mutation_keeps_scopes(fuel, m, id, e, t);
        },
        Stmt::If(cond, body) => {
            law_run_block_keeps_scopes(fuel, m, body@, 0, ValueView::Void, inner_of(t));
        },
        Stmt::IfElse(cond, yes, no) => {
            law_run_block_keeps_scopes(fuel, m, yes@, 0, ValueView::Void, inner_of(t));
            law_run_block_keeps_scopes(fuel, m, no@, 0, ValueView::Void, inner_of(t));
        },
        Stmt::While(cond, body) => {
            if fuel > 0 {
                law_run_block_keeps_scopes(
                    (fuel - 1) as nat,
                    m,
                    body@,
                    0,
                    ValueView::Void,
                    inner_of(t),
                );
                match block_with((fuel - 1) as nat, m, body@, 0, ValueView::Void, inner_of(t)) {
                    Some(Ok((m2, _))) => {
                        law_run_stmt_keeps_scopes((fuel - 1) as nat, m2, s, next_of(t));
                    },
                    _ => {},
                }
            }
        },
        _ => {},
    }
}

proof fn lemma_mutation_keeps_scopes<F: FloatArith>(fuel: nat, m: Machine<F>, id: String, e: Expr, t: Trace<F>)
    ensures
        run_with(fuel, m, Stmt::Mutation(id, e), t) matches Some(Ok((m2, v))) ==> m2.mem.len()
            == m.mem.len() && appends_to(m.out, m2.out),
{
    lemma_innermost(m.mem, id@);
    match eval_with(m.mem, e, picks_of(t)) {
        Some(Ok(v)) => {
            assert(assign(m.mem, id@, v).len() == m.mem.len());
        },
        _ => {},
    }
}

/// Running a block never opens or closes a scope, and only appends to the
/// output, whatever the float arithmetic gives.
pub proof fn law_run_block_keeps_scopes<F: FloatArith>(
    fuel: nat,
    m: Machine<F>,
    stmts: Seq<Stmt>,
    i: nat,
    last: ValueView<F>,
    t: Trace<F>,
)
    ensures
        block_with(fuel, m, stmts, i, last, t) matches Some(Ok((m2, v))) ==> m2.mem.len()
            == m.mem.len() && appends_to(m.out, m2.out),
    decreases fuel, stmts, stmts.len() - i,
{
    if i < stmts.len() {
        law_run_stmt_keeps_scopes(fuel, m, stmts[i as int], inner_of(t));
        match run_with(fuel, m, stmts[i as int], inner_of(t)) {
            Some(Ok((m2, v))) => {
                law_run_block_keeps_scopes(fuel, m2, stmts, i + 1, v, next_of(t));
            },
            _ => {},
        }
    }
}

/// Allowing loops more iterations changes no run of a statement that
/// finished without running out of them.
pub proof fn law_more_fuel_same_run<F: FloatArith>(f1: nat, f2: nat, m: Machine<F>, s: Stmt, t: Trace<F>)
    requires
        f1 <= f2,
    ensures
        run_with(f1, m, s, t) matches Some(r) && r != Err::<(Machine<F>, ValueView<F>), RuntimeError>(
            RuntimeError::OutOfFuel,
        ) ==> run_with(f2, m, s, t) == run_with(f1, m, s, t),
    decreases f1, s, 0nat,
{
    match s {
        Stmt::If(_, body) => {
            law_more_fuel_same_block(f1, f2, m, body@, 0, ValueView::Void, inner_of(t));
        },
        Stmt::IfElse(_, yes, no) => {
            law_more_fuel_same_block(f1, f2, m, yes@, 0, ValueView::Void, inner_of(t));
            law_more_fuel_same_block(f1, f2, m, no@, 0, ValueView::Void, inner_of(t));
        },
        Stmt::While(_, body) => {
            if f1 > 0 {
                law_more_fuel_same_block(
                    (f1 - 1) as nat,
                    (f2 - 1) as nat,
                    m,
                    body@,
                    0,
                    ValueView::Void,
                    inner_of(t),
                );
                match block_with((f1 - 1) as nat, m, body@, 0, ValueView::Void, inner_of(t)) {
                    Some(Ok((m2, _))) => {
                        law_more_fuel_same_run(
                            (f1 - 1) as nat,
                            (f2 - 1) as nat,
                            m2,
                            s,
                            next_of(t),
                        );
                    },
                    _ => {},
                }
            }
        },
        _ => {},
    }
}

/// Allowing loops more iterations changes no run of a block that finished
/// without running out of them.
pub proof fn law_more_fuel_same_block<F: FloatArith>(
    f1: nat,
    f2: nat,
    m: Machine<F>,
    stmts: Seq<Stmt>,
    i: nat,
    last: ValueView<F>,
    t: Trace<F>,
)
    requires
        f1 <= f2,
    ensures
        block_with(f1, m, stmts, i, last, t) matches Some(r) && r != Err::<
            (Machine<F>, ValueView<F>),
            RuntimeError,
        >(RuntimeError::OutOfFuel) ==> block_with(f2, m, stmts, i, last, t) == block_with(
            f1,
            m,
            stmts,
            i,
            last,
            t,
        ),
    decreases f1, stmts, stmts.len() - i,
{
    if i < stmts.len() {
        law_more_fuel_same_run(f1, f2, m, stmts[i as int], inner_of(t));
        match run_with(f1, m, stmts[i as int], inner_of(t)) {
            Some(Ok((m2, v))) => {
                law_more_fuel_same_block(f1, f2, m2, stmts, i + 1, v, next_of(t));
            },
            _ => {},
        }
    }
}

/// After `let id: ty = e;` (or `let id = e;`), reading `id` gives the value
/// `e` had, floats included: a run of the declaration succeeds exactly when
/// `e` yields a value.
pub proof fn law_declared_variable_reads_back<F: FloatArith>(
    fuel: nat,
    m: Machine<F>,
    id: String,
    ty: Option<Type>,
    e: Expr,
    t: Trace<F>,
)
    requires
        m.mem.len() > 0,
    ensures
        eval_with(m.mem, e, picks_of(t)) matches Some(Ok(v)) ==> (run_with(
            fuel,
            m,
            Stmt::Decl(id, ty, e),
            t,
        ) matches Some(Ok((m2, _))) && lookup(m2.mem, id@) == Some(v)),
        run_with(fuel, m, Stmt::Decl(id, ty, e), t) matches Some(Ok(_)) ==> eval_with(
            m.mem,
            e,
            picks_of(t),
        ) matches Some(Ok(_)),
{
    match eval_with(m.mem, e, picks_of(t)) {
        Some(Ok(v)) => {
            law_declare_then_lookup(m.mem, id@, v, id@);
        },
        _ => {},
    }
}

/// After `id = e;`, reading `id` gives the value `e` had; assigning a name
/// that was never declared fails.
pub proof fn law_assigned_variable_reads_back<F: FloatArith>(
    fuel: nat,
    m: Machine<F>,
    id: String,
    e: Expr,
    t: Trace<F>,
)
    ensures
        eval_with(m.mem, e, picks_of(t)) matches Some(Ok(v)) ==> if lookup(m.mem, id@) is Some {
            run_with(fuel, m, Stmt::Mutation(id, e), t) matches Some(Ok((m2, _))) && lookup(
                m2.mem,
                id@,
            ) == Some(v)
        } else {
            run_with(fuel, m, Stmt::Mutation(id, e), t) == Some(
                Err::<(Machine<F>, ValueView<F>), RuntimeError>(RuntimeError::UnknownVariable(id)),
            )
        },
{
    match eval_with(m.mem, e, picks_of(t)) {
        Some(Ok(v)) => {
            law_assign_then_lookup(m.mem, id@, v, id@);
        },
        _ => {},
    }
}

proof fn lemma_decimal_literal<F: FloatArith>(t: String)
    requires
        decimal_value(t@) is Some,
    ensures
        literal_view::<F>(t) matches Some(Ok(v)) ==> v is Int,
{
    reveal_strlit("true");
    reveal_strlit("false");
    assert(crate::text::is_digit(t@[0]));
    assert(t@ != "true"@);
    assert(t@ != "false"@);
}

proof fn lemma_quoted_literal<F: FloatArith>(t: String)
    requires
        t@.len() >= 2,
        t@[0] == '"' || t@[0] == '\'',
        t@.last() == t@[0],
    ensures
        t@[0] == '"' ==> (literal_view::<F>(t) matches Some(Ok(v)) ==> v is Str),
        t@[0] == '\'' && t@.len() >= 3 ==> (literal_view::<F>(t) matches Some(Ok(v)) ==> v is Char),
{
    reveal_strlit("true");
    reveal_strlit("false");
    assert(!crate::text::is_digit(t@[0]));
    assert(t@ != "true"@);
    assert(t@ != "false"@);
}

/// The types of the values a memory holds.
pub open spec fn mem_types<F: FloatArith>(mem: Scopes<ValueView<F>>) -> Scopes<Type> {
    map_scopes(mem, |v: ValueView<F>| view_type(v))
}

/// Each literal is spelled as its kind is: an int as decimal digits that fit
/// an `i32`, a string between double quotes, a char between single quotes, a
/// float as no other kind of literal.
pub open spec fn literals_as_written<F: FloatArith>(e: Expr) -> bool
    decreases e,
{
    match e {
        Expr::Int(t) => decimal_value(t@) is Some && decimal_value(t@)->0 <= i32::MAX,
        Expr::Float(t) => literal_view::<F>(t) is None,
        Expr::Str(t) => t@.len() >= 2 && t@[0] == '"' && t@.last() == '"',
        Expr::Char(t) => t@.len() >= 3 && t@[0] == '\'' && t@.last() == '\'',
        Expr::Paren(x) => literals_as_written::<F>(*x),
        Expr::Unary(_, x) => literals_as_written::<F>(*x),
        Expr::Binary(_, l, r) => literals_as_written::<F>(*l) && literals_as_written::<F>(*r),
        Expr::Cast(_, x) => literals_as_written::<F>(*x),
        Expr::ToStr(x) => literals_as_written::<F>(*x),
        _ => true,
    }
}


/// An expression the type checker gives type `t`, evaluated in a memory whose
/// values have the types the checker assumed, yields a value of type `t`
/// whenever it yields a value, whatever the float arithmetic gives.
pub proof fn law_typed_expression_yields_its_type<F: FloatArith>(
    mem: Scopes<ValueView<F>>,
    e: Expr,
    p: Picks<F>,
)
    requires
        literals_as_written::<F>(e),
    ensures
        expr_type(mem_types(mem), e) matches Ok(t) ==> (eval_with(mem, e, p) matches Some(Ok(v))
            ==> view_type(v) == t),
    decreases e,
{
    match e {
        Expr::Int(t) => {
            reveal_strlit("true");
            reveal_strlit("false");
            lemma_decimal_literal::<F>(t);
        },
        Expr::Str(t) => {
            lemma_quoted_literal::<F>(t);
        },
        Expr::Char(t) => {
            lemma_quoted_literal::<F>(t);
        },
        Expr::Id(name) => {
            lemma_map_scopes(mem, |v: ValueView<F>| view_type(v), name@, ValueView::Void);
        },
        Expr::Paren(x) => {
            law_typed_expression_yields_its_type(mem, *x, p);
        },
        Expr::Unary(_, x) => {
            law_typed_expression_yields_its_type(mem, *x, first(p));
        },
        Expr::Binary(_, l, r) => {
            law_typed_expression_yields_its_type(mem, *l, first(p));
            law_typed_expression_yields_its_type(mem, *r, second(p));
        },
        Expr::Cast(_, x) => {
            law_typed_expression_yields_its_type(mem, *x, first(p));
        },
        Expr::ToStr(x) => {
            law_typed_expression_yields_its_type(mem, *x, first(p));
        },
        _ => {},
    }
}

/// A fault that typing does not rule out: an integer overflow, a division by
/// zero, a negative exponent or a literal with a malformed escape.
pub open spec fn arithmetic_fault(err: RuntimeError) -> bool {
    ||| err is Overflow
    ||| err is DivisionByZero
    ||| err is NegativeExponent
    ||| err is InvalidLiteral
}

/// The operand of every `to_str` in `e`, which the type checker does not
/// examine, has a type under `env`.
pub open spec fn to_str_operands_typed(env: Scopes<Type>, e: Expr) -> bool
    decreases e,
{
    match e {
        Expr::ToStr(x) => expr_type(env, *x) is Ok && to_str_operands_typed(env, *x),
        Expr::Paren(x) => to_str_operands_typed(env, *x),
        Expr::Unary(_, x) => to_str_operands_typed(env, *x),
        Expr::Cast(_, x) => to_str_operands_typed(env, *x),
        Expr::Binary(_, l, r) => to_str_operands_typed(env, *l) && to_str_operands_typed(env, *r),
        _ => true,
    }
}

/// An operator applied to values of the types the checker accepts for it
/// fails only with an arithmetic fault.
proof fn lemma_binary_typed<F: FloatArith>(op: BinaryOp, l: ValueView<F>, r: ValueView<F>)
    ensures
        binary_type(op, view_type(l), view_type(r)) is Ok ==> (binary_view(op, l, r) matches Some(
            Err(err),
        ) ==> arithmetic_fault(err)),
{
}

/// A unary operator or a cast applied to a value of a type the checker
/// accepts for it fails only with an arithmetic fault.
proof fn lemma_unary_typed<F: FloatArith>(op: UnaryOp, v: ValueView<F>, to: Type)
    ensures
        unary_type(op, view_type(v)) is Ok ==> match op {
            UnaryOp::Neg => neg_view(v) matches Some(Err(err)) ==> arithmetic_fault(err),
            UnaryOp::Not => not_view(v) is Ok,
        },
        cast_type(view_type(v), to) is Some ==> cast_view(v, to) is None,
{
}


/// Well-typed expressions do not go wrong: an expression the type checker
/// gives a type, evaluated in a memory whose values have the types the
/// checker assumed, fails only with an arithmetic fault, whatever the float
/// arithmetic gives.
pub proof fn law_typed_expression_does_not_go_wrong<F: FloatArith>(
    mem: Scopes<ValueView<F>>,
    e: Expr,
    p: Picks<F>,
)
    requires
        literals_as_written::<F>(e),
        to_str_operands_typed(mem_types(mem), e),
    ensures
        expr_type(mem_types(mem), e) is Ok ==> (eval_with(mem, e, p) matches Some(Err(err))
            ==> arithmetic_fault(err)),
    decreases e,
{
    match e {
        Expr::Id(name) => {
            lemma_map_scopes(mem, |v: ValueView<F>| view_type(v), name@, ValueView::Void);
        },
        Expr::Paren(x) => {
            law_typed_expression_does_not_go_wrong(mem, *x, p);
        },
        Expr::Unary(op, x) => {
            law_typed_expression_does_not_go_wrong(mem, *x, first(p));
            law_typed_expression_yields_its_type(mem, *x, first(p));
            match eval_with(mem, *x, first(p)) {
                Some(Ok(v)) => lemma_unary_typed(op, v, Type::Void),
                _ => {},
            }
        },
        Expr::Binary(op, l, r) => {
            law_typed_expression_does_not_go_wrong(mem, *l, first(p));
            law_typed_expression_does_not_go_wrong(mem, *r, second(p));
            law_typed_expression_yields_its_type(mem, *l, first(p));
            law_typed_expression_yields_its_type(mem, *r, second(p));
            match (eval_with(mem, *l, first(p)), eval_with(mem, *r, second(p))) {
                (Some(Ok(lv)), Some(Ok(rv))) => lemma_binary_typed(op, lv, rv),
                _ => {},
            }
        },
        Expr::Cast(to, x) => {
            law_typed_expression_does_not_go_wrong(mem, *x, first(p));
            law_typed_expression_yields_its_type(mem, *x, first(p));
            match eval_with(mem, *x, first(p)) {
                Some(Ok(v)) => lemma_unary_typed(UnaryOp::Not, v, to),
                _ => {},
            }
        },
        Expr::ToStr(x) => {
            law_typed_expression_does_not_go_wrong(mem, *x, first(p));
        },
        _ => {},
    }
}

/// A program that reads a variable that was never declared is rejected with
/// `UnknownVariable(name)`, in every run.
pub proof fn law_undeclared_variable_rejected<F: FloatArith>(
    fuel: nat,
    m: Machine<F>,
    name: String,
    t: Trace<F>,
)
    requires
        lookup(m.mem, name@) is None,
    ensures
        run_with(fuel, m, Stmt::Expr(Expr::Id(name)), t) == Some(
            Err::<(Machine<F>, ValueView<F>), RuntimeError>(RuntimeError::UnknownVariable(name)),
        ),
{
}

/// `print(e)` appends one line to the output and changes nothing else, and
/// that line is a text `to_str(e)` gives in the same state: the value's
/// printed text, which is fixed for every value but a float.
pub proof fn law_print_writes_to_str<F: FloatArith>(fuel: nat, m: Machine<F>, e: Expr, t: Trace<F>)
    ensures
        run_with(fuel, m, Stmt::Print(e), t) matches Some(Ok((m2, v))) ==> {
            &&& v == ValueView::<F>::Void
            &&& m2.mem == m.mem
            &&& m2.out.len() == m.out.len() + 1
            &&& m2.out.drop_last() == m.out
            &&& evaluates(
                m.mem,
                Expr::ToStr(Box::new(e)),
                Ok::<ValueView<F>, RuntimeError>(ValueView::Str(m2.out.last())),
            )
        },
{
    match eval_with(m.mem, e, picks_of(t)) {
        Some(Ok(v)) => {
            let text = match display(v) {
                Some(x) => x,
                None => text_of(t),
            };
            if display(v) is Some || printed_as(v, text) {
                let p = node(
                    Ok::<ValueView<F>, RuntimeError>(ValueView::Str(text)),
                    picks_of(t),
                    Picks::Leaf,
                );
                assert(eval_with(m.mem, Expr::ToStr(Box::new(e)), p) == Some(
                    Ok::<ValueView<F>, RuntimeError>(ValueView::Str(text)),
                ));
                assert(m.out.push(text).drop_last() =~= m.out);
            }
        },
        _ => {},
    }
}

/// Two floats compare equal exactly as the float arithmetic's `float_eq`
/// answers on them, and unequal as its negation, in every run.
pub proof fn law_float_equality_answers_float_eq<F: FloatArith>(
    mem: Scopes<ValueView<F>>,
    l: Expr,
    r: Expr,
    p: Picks<F>,
    a: F,
    b: F,
)
    requires
        eval_with(mem, l, first(p)) == Some(Ok::<ValueView<F>, RuntimeError>(ValueView::Float(a))),
        eval_with(mem, r, second(p)) == Some(Ok::<ValueView<F>, RuntimeError>(ValueView::Float(b))),
    ensures
        eval_with(mem, Expr::Binary(BinaryOp::Eq, Box::new(l), Box::new(r)), p) matches Some(Ok(v))
            ==> (v matches ValueView::Bool(x) && eq_gives(a, b, x)),
        eval_with(mem, Expr::Binary(BinaryOp::Ne, Box::new(l), Box::new(r)), p) matches Some(Ok(v))
            ==> (v matches ValueView::Bool(x) && eq_gives(a, b, !x)),
{
}

/// Negating a float gives what the float arithmetic's `float_neg` gives on
/// it, in every run.
pub proof fn law_float_negation_answers_float_neg<F: FloatArith>(
    mem: Scopes<ValueView<F>>,
    x: Expr,
    p: Picks<F>,
    a: F,
)
    requires
        eval_with(mem, x, first(p)) == Some(Ok::<ValueView<F>, RuntimeError>(ValueView::Float(a))),
    ensures
        eval_with(mem, Expr::Unary(UnaryOp::Neg, Box::new(x)), p) matches Some(Ok(v)) ==> (v matches ValueView::Float(g)
            && neg_gives(a, g)),
{
}

/// The arithmetic operators and comparisons on two floats give what the
/// float arithmetic's operation for them gives on the two floats, in every
/// run: `float_pow`, `float_mul`, `float_div`, `float_rem`, `float_add`,
/// `float_sub`, and `float_lt` and `float_le` (with the operands swapped for
/// `>` and `>=`).
pub proof fn law_float_operators_answer_float_ops<F: FloatArith>(
    mem: Scopes<ValueView<F>>,
    op: BinaryOp,
    l: Expr,
    r: Expr,
    p: Picks<F>,
    a: F,
    b: F,
)
    requires
        eval_with(mem, l, first(p)) == Some(Ok::<ValueView<F>, RuntimeError>(ValueView::Float(a))),
        eval_with(mem, r, second(p)) == Some(Ok::<ValueView<F>, RuntimeError>(ValueView::Float(b))),
    ensures
        undecided_type(op) == Type::Float ==> (eval_with(
            mem,
            Expr::Binary(op, Box::new(l), Box::new(r)),
            p,
        ) matches Some(Ok(v)) ==> (v matches ValueView::Float(g) && arith_gives(op, a, b, g))),
        (op == BinaryOp::Lt || op == BinaryOp::Le || op == BinaryOp::Gt || op == BinaryOp::Ge)
            ==> (eval_with(mem, Expr::Binary(op, Box::new(l), Box::new(r)), p) matches Some(Ok(v))
            ==> (v matches ValueView::Bool(x) && cmp_gives(op, a, b, x))),
{
}

/// A literal that is no int, bool, string or char literal evaluates to what
/// the float arithmetic's `parse_float` gives on its text: the float it
/// parsed, or the literal's rejection where it parsed none.
pub proof fn law_float_literal_answers_parse_float<F: FloatArith>(
    mem: Scopes<ValueView<F>>,
    t: String,
    p: Picks<F>,
)
    requires
        literal_view::<F>(t) is None,
    ensures
        eval_with(mem, Expr::Float(t), p) matches Some(Ok(v)) ==> (v matches ValueView::Float(g)
            && parse_gives(t@, Some(g))),
        eval_with(mem, Expr::Float(t), p) matches Some(Err(e)) ==> (e == RuntimeError::InvalidLiteral(
            t,
        ) && parse_gives::<F>(t@, None)),
{
}

/// A statement that runs no block: a declaration, an assignment, a `print`
/// or an expression.
pub open spec fn flat(s: Stmt) -> bool {
    !(s is If || s is IfElse || s is While)
}

/// The type checker predicts the interpreter on programs of declarations,
/// assignments, prints and expressions whose literals are spelled as their
/// kinds are: started from values of the types the checker assumes, a run
/// that ends normally leaves values of the types the checker computed, and
/// the run's value has the type the checker gave the program, whatever the
/// float arithmetic gives. (The checker does not look into the bodies of
/// `if` and `while`, which may change a variable's type.)
pub proof fn law_checked_program_runs_at_its_type<F: FloatArith>(
    fuel: nat,
    m: Machine<F>,
    stmts: Seq<Stmt>,
    i: nat,
    last: ValueView<F>,
    t: Trace<F>,
)
    requires
        m.mem.len() > 0,
        i <= stmts.len(),
        forall|j: int|
            i <= j < stmts.len() ==> flat(#[trigger] stmts[j]) && literals_as_written::<F>(
                head_expr(stmts[j]),
            ),
    ensures
        stmts_effect(mem_types(m.mem), stmts.skip(i as int), view_type(last)) matches Ok((env, ty))
            ==> (block_with(fuel, m, stmts, i, last, t) matches Some(Ok((m2, v))) ==> mem_types(
            m2.mem,
        ) == env && view_type(v) == ty),
    decreases stmts.len() - i,
{
    if i < stmts.len() {
        let s = stmts[i as int];
        let tr = inner_of(t);
        assert(stmts.skip(i as int)[0] == s);
        assert(stmts.skip(i as int).drop_first() =~= stmts.skip((i + 1) as int));
        assert(flat(s) && literals_as_written::<F>(head_expr(s)));
        law_typed_expression_yields_its_type(m.mem, head_expr(s), picks_of(tr));
        law_run_stmt_keeps_scopes(fuel, m, s, tr);
        match eval_with(m.mem, head_expr(s), picks_of(tr)) {
            Some(Ok(v)) => match s {
                Stmt::Decl(id, _, _) => {
                    lemma_map_scopes(m.mem, |v: ValueView<F>| view_type(v), id@, v);
                },
                Stmt::Mutation(id, _) => {
                    lemma_map_scopes(m.mem, |v: ValueView<F>| view_type(v), id@, v);
                },
                _ => {},
            },
            _ => {},
        }
        match run_with(fuel, m, s, tr) {
            Some(Ok((m2, v))) => {
                law_checked_program_runs_at_its_type(fuel, m2, stmts, i + 1, v, next_of(t));
            },
            _ => {},
        }
    }
}

/// What `ImpTypeChecker::check` computes for a program, `interpret` keeps to:
/// for a program of declarations, assignments, prints and expressions whose
/// literals are spelled as their kinds are, run from values of the types the
/// checker started from, every run that ends normally ends with values of the
/// types the checker ended with and has a value of the program's type.
pub proof fn law_checker_predicts_run<F: FloatArith>(
    fuel: nat,
    m: Machine<F>,
    stmts: Seq<Stmt>,
    m2: Machine<F>,
    v: ValueView<F>,
)
    requires
        m.mem.len() > 0,
        forall|j: int|
            0 <= j < stmts.len() ==> flat(#[trigger] stmts[j]) && literals_as_written::<F>(
                head_expr(stmts[j]),
            ),
        block_runs(fuel, m, stmts, 0, ValueView::Void, Ok((m2, v))),
    ensures
        stmts_effect(mem_types(m.mem), stmts, Type::Void) matches Ok((env, ty)) ==> mem_types(m2.mem)
            == env && view_type(v) == ty,
{
    let t = choose|t: Trace<F>| #[trigger] block_with(fuel, m, stmts, 0, ValueView::Void, t) == Some(
        Ok::<(Machine<F>, ValueView<F>), RuntimeError>((m2, v)),
    );
    assert(stmts.skip(0) =~= stmts);
    law_checked_program_runs_at_its_type(fuel, m, stmts, 0, ValueView::Void, t);
}

/// An interpreter for programs whose floats are of type `F`.
#[verifier::reject_recursive_types(F)]
pub struct ImpInterpreter<F> {
    res: Value<F>,
    memory: HashMemory<Value<F>>,
    output: Vec<String>,
}

impl<F: FloatArith> ImpInterpreter<F> {
    /// The variables and the output the interpreter holds (the value of the
    /// last program run is `last`).
    pub closed spec fn machine(&self) -> Machine<F> {
        Machine { mem: mem_view(self.memory@), out: self.output@.map_values(|s: String| s@) }
    }

    /// The value of the last program run.
    pub closed spec fn last(&self) -> Value<F> {
        self.res
    }

    /// The value of the last program run (`Void` before any).
    pub fn res(&self) -> (r: &Value<F>)
        ensures
            *r == self.last(),
    {
        &self.res
    }

    /// The interpreter holds at least the global scope.
    pub closed spec fn wf(&self) -> bool {
        self.memory@.len() > 0
    }

    /// An interpreter with no variable and no output.
    pub fn new() -> (r: Self)
        ensures
            r.wf(),
            r.machine() == (Machine::<F> {
                mem: seq![Map::<Seq<char>, ValueView<F>>::empty()],
                out: Seq::empty(),
            }),
            r.last()@ == ValueView::<F>::Void,
    {
        let r = ImpInterpreter { res: Value::Void, memory: HashMemory::new(), output: Vec::new() };
        assert(r.machine().mem[0] =~= Map::<Seq<char>, ValueView<F>>::empty());
        assert(r.machine().mem =~= seq![Map::<Seq<char>, ValueView<F>>::empty()]);
        assert(r.machine().out =~= Seq::<Seq<char>>::empty());
        r
    }

    /// Parses a program's text (see `parser::parse_program`): it succeeds
    /// exactly when the text's tokens are those of a well-formed program.
    pub fn parse(input: &str) -> (r: Result<SyntaxTree, ParseError>)
        ensures
            lex(input@) matches Err(e) ==> r == Err::<SyntaxTree, ParseError>(ParseError::Lex(e)),
            r matches Ok(p) ==> lex(input@) is Ok && program_at(lex(input@)->Ok_0, p),
            lex(input@) is Ok ==> (r is Ok <==> exists|p: SyntaxTree| #[trigger]
                program_at(lex(input@)->Ok_0, p)),
            lex(input@) is Ok ==> (r matches Err(e) ==> parse_failure(
                e,
                lex(input@)->Ok_0.len() as int,
            )),
            forall|p: SyntaxTree| #[trigger]
                program_at(lex(input@)->Ok_0, p) ==> lex(input@) is Ok ==> (r matches Ok(q)
                    && program_eqv(q, p)),
    {
        parse_program(input)
    }

    /// The value of a variable, looked up through the scopes.
    pub fn variable(&self, name: &str) -> (r: Option<&Value<F>>)
        ensures
            match r {
                Some(v) => lookup(self.machine().mem, name@) == Some(v@),
                None => lookup(self.machine().mem, name@) is None,
            },
    {
        proof {
            lemma_map_scopes(self.memory@, |v: Value<F>| v@, name@, Value::Void);
        }
        self.memory.get(name)
    }

    /// The lines printed so far.
    pub fn output(&self) -> (r: &Vec<String>)
        ensures
            r@.map_values(|s: String| s@) == self.machine().out,
    {
        &self.output
    }

    /// Runs a program, its loops allowed `u64::MAX` iterations each, and
    /// returns the value of its last statement (`Void` for an empty program),
    /// which it also keeps as the value of the last program run.
    pub fn interpret(&mut self, ast: &SyntaxTree) -> (r: Result<Value<F>, RuntimeError>)
        requires
            old(self).wf(),
        ensures
            final(self).wf(),
            grows(old(self).machine(), final(self).machine()),
            block_runs(
                u64::MAX as nat,
                old(self).machine(),
                ast.stmts@,
                0,
                ValueView::Void,
                ran(r, final(self).machine()),
            ),
            match r {
                Ok(v) => final(self).last()@ == v@,
                Err(_) => final(self).last() == old(self).last(),
            },
    {
        let r = self.run_stmts(u64::MAX, &ast.stmts);
        match &r {
            Ok(v) => {
                self.res = v.duplicate();
            },
            Err(_) => {},
        }
        r
    }

    /// Runs statements in order with `fuel` iterations allowed to each loop.
    pub fn run_stmts(&mut self, fuel: u64, stmts: &Vec<Stmt>) -> (r: Result<Value<F>, RuntimeError>)
        requires
            old(self).wf(),
        ensures
            final(self).wf(),
            grows(old(self).machine(), final(self).machine()),
            block_runs(
                fuel as nat,
                old(self).machine(),
                stmts@,
                0,
                ValueView::Void,
                ran(r, final(self).machine()),
            ),
            final(self).last() == old(self).last(),
        decreases fuel, stmts, 2nat,
    {
        let n = stmts.len();
        let mut i: usize = 0;
        let mut last: Value<F> = Value::Void;
        proof {
            assert(decreases_to!(stmts => stmts@));
        }
        while i < n
            invariant
                n == stmts@.len(),
                i <= n,
                self.wf(),
                grows(old(self).machine(), self.machine()),
                self.last() == old(self).last(),
                forall|out| #[trigger]
                    block_runs(fuel as nat, self.machine(), stmts@, i as nat, last@, out)
                        ==> block_runs(fuel as nat, old(self).machine(), stmts@, 0, ValueView::Void, out),
            decreases n - i,
        {
            proof {
                assert(decreases_to!(stmts@ => stmts@[i as int]));
            }
            let ghost before = self.machine();
            match self.run_stmt(fuel, &stmts[i]) {
                Ok(v) => {
                    let ghost (j, lv) = (i as nat, last@);
                    last = v;
                    i = i + 1;
                    proof {
                        lemma_block_step(fuel as nat, before, stmts@, j, lv, self.machine(), last@, i as nat);
                    }
                },
                Err(err) => {
                    proof {
                        lemma_block_fails(fuel as nat, before, stmts@, i as nat, last@, err);
                    }
                    return Err(err);
                },
            }
        }
        proof {
            assert(block_with(fuel as nat, self.machine(), stmts@, i as nat, last@, Trace::End) == Some(
                Ok::<(Machine<F>, ValueView<F>), RuntimeError>((self.machine(), last@)),
            ));
            assert(block_runs(
                fuel as nat,
                self.machine(),
                stmts@,
                i as nat,
                last@,
                Ok::<(Machine<F>, ValueView<F>), RuntimeError>((self.machine(), last@)),
            ));
        }
        Ok(last)
    }

    /// Runs one statement with `fuel` iterations allowed to each loop.
    pub fn run_stmt(&mut self, fuel: u64, s: &Stmt) -> (r: Result<Value<F>, RuntimeError>)
        requires
            old(self).wf(),
        ensures
            final(self).wf(),
            grows(old(self).machine(), final(self).machine()),
            runs(fuel as nat, old(self).machine(), *s, ran(r, final(self).machine())),
            final(self).last() == old(self).last(),
        decreases fuel, s, 1nat,
    {
        let ghost m = self.machine();
        match s {
            Stmt::Decl(id, _, e) => {
                let c = match self.eval_expr(e) {
                    Ok(c) => c,
                    Err(err) => {
                        proof {
                            lemma_head_fails(fuel as nat, m, *s, err);
                        }
                        return Err(err);
                    },
                };
                let ghost p = choose|p: Picks<F>| #[trigger]
                    eval_with(m.mem, *e, p) == Some(Ok::<ValueView<F>, RuntimeError>(c@));
                proof {
                    lemma_map_scopes(self.memory@, |v: Value<F>| v@, id@, c);
                }
                self.memory.add(id.clone(), c);
                proof {
                    assert(run_with(fuel as nat, m, *s, step(p, Seq::empty(), Trace::End, Trace::End))
                        == Some(Ok::<(Machine<F>, ValueView<F>), RuntimeError>((self.machine(), ValueView::Void))));
                }
                Ok(Value::Void)
            },
            Stmt::Mutation(id, e) => {
                let c = match self.eval_expr(e) {
                    Ok(c) => c,
                    Err(err) => {
                        proof {
                            lemma_head_fails(fuel as nat, m, *s, err);
                        }
                        return Err(err);
                    },
                };
                let ghost p = choose|p: Picks<F>| #[trigger]
                    eval_with(m.mem, *e, p) == Some(Ok::<ValueView<F>, RuntimeError>(c@));
                proof {
                    lemma_map_scopes(self.memory@, |v: Value<F>| v@, id@, c);
                    lemma_innermost(self.memory@, id@);
                }
                let r = match self.memory.update(id.clone(), c) {
                    Some(_) => Ok(Value::Void),
                    None => Err(RuntimeError::UnknownVariable(id.clone())),
                };
                proof {
                    assert(run_with(fuel as nat, m, *s, step(p, Seq::empty(), Trace::End, Trace::End))
                        == Some(ran(r, self.machine())));
                }
                r
            },
            Stmt::Print(e) => {
                let c = match self.eval_expr(e) {
                    Ok(c) => c,
                    Err(err) => {
                        proof {
                            lemma_head_fails(fuel as nat, m, *s, err);
                        }
                        return Err(err);
                    },
                };
                let ghost p = choose|p: Picks<F>| #[trigger]
                    eval_with(m.mem, *e, p) == Some(Ok::<ValueView<F>, RuntimeError>(c@));
                let t = c.fmt();
                self.output.push(t);
                proof {
                    assert(self.machine().out =~= m.out.push(t@));
                    assert(run_with(fuel as nat, m, *s, step(p, t@, Trace::End, Trace::End))
                        == Some(Ok::<(Machine<F>, ValueView<F>), RuntimeError>((self.machine(), ValueView::Void))));
                }
                Ok(Value::Void)
            },
            Stmt::If(cond, body) => {
                let c = match self.eval_expr(cond) {
                    Ok(c) => c,
                    Err(err) => {
                        proof {
                            lemma_head_fails(fuel as nat, m, *s, err);
                        }
                        return Err(err);
                    },
                };
                let ghost p = choose|p: Picks<F>| #[trigger]
                    eval_with(m.mem, *cond, p) == Some(Ok::<ValueView<F>, RuntimeError>(c@));
                match c {
                    Value::Bool(true) => {
                        let rb = self.run_stmts(fuel, body);
                        let ghost out = ran(rb, self.machine());
                        let r = match rb {
                            Ok(_) => Ok(Value::Void),
                            Err(err) => Err(err),
                        };
                        proof {
                            let t1 = choose|t: Trace<F>| #[trigger]
                                block_with(fuel as nat, m, body@, 0, ValueView::Void, t) == Some(out);
                            assert(run_with(fuel as nat, m, *s, step(p, Seq::empty(), t1, Trace::End))
                                == Some(ran(r, self.machine())));
                        }
                        r
                    },
                    _ => {
                        proof {
                            assert(run_with(fuel as nat, m, *s, step(p, Seq::empty(), Trace::End, Trace::End))
                                == Some(Ok::<(Machine<F>, ValueView<F>), RuntimeError>((m, ValueView::Void))));
                        }
                        Ok(Value::Void)
                    },
                }
            },
            Stmt::IfElse(cond, yes, no) => {
                let c = match self.eval_expr(cond) {
                    Ok(c) => c,
                    Err(err) => {
                        proof {
                            lemma_head_fails(fuel as nat, m, *s, err);
                        }
                        return Err(err);
                    },
                };
                let ghost p = choose|p: Picks<F>| #[trigger]
                    eval_with(m.mem, *cond, p) == Some(Ok::<ValueView<F>, RuntimeError>(c@));
                let b = match c {
                    Value::Bool(true) => true,
                    _ => false,
                };
                let r = if b {
                    self.run_stmts(fuel, yes)
                } else {
                    self.run_stmts(fuel, no)
                };
                proof {
                    let blk = if b { yes@ } else { no@ };
                    let t1 = choose|t: Trace<F>| #[trigger]
                        block_with(fuel as nat, m, blk, 0, ValueView::Void, t) == Some(ran(r, self.machine()));
                    assert(run_with(fuel as nat, m, *s, step(p, Seq::empty(), t1, Trace::End))
                        == Some(ran(r, self.machine())));
                }
                r
            },
            Stmt::While(cond, body) => self.run_loop(fuel, s, cond, body),
            Stmt::Expr(e) => {
                let c = match self.eval_expr(e) {
                    Ok(c) => c,
                    Err(err) => {
                        proof {
                            lemma_head_fails(fuel as nat, m, *s, err);
                        }
                        return Err(err);
                    },
                };
                let ghost p = choose|p: Picks<F>| #[trigger]
                    eval_with(m.mem, *e, p) == Some(Ok::<ValueView<F>, RuntimeError>(c@));
                let ghost cv = c@;
                proof {
                    assert(run_with(fuel as nat, m, *s, step(p, Seq::empty(), Trace::End, Trace::End))
                        == Some(Ok::<(Machine<F>, ValueView<F>), RuntimeError>((m, cv))));
                }
                Ok(c)
            },
        }
    }

    #[verifier::rlimit(40)]
    fn run_loop(&mut self, fuel: u64, s: &Stmt, cond: &Expr, body: &Vec<Stmt>) -> (r: Result<
        Value<F>,
        RuntimeError,
    >)
        requires
            old(self).wf(),
            *s == Stmt::While(*cond, *body),
        ensures
            final(self).wf(),
            grows(old(self).machine(), final(self).machine()),
            runs(fuel as nat, old(self).machine(), *s, ran(r, final(self).machine())),
            final(self).last() == old(self).last(),
        decreases fuel, s, 0nat,
    {
        let mut f = fuel;
        loop
            invariant
                f <= fuel,
                self.wf(),
                grows(old(self).machine(), self.machine()),
                self.last() == old(self).last(),
                *s == Stmt::While(*cond, *body),
                forall|out| #[trigger]
                    runs(f as nat, self.machine(), *s, out) ==> runs(
                        fuel as nat,
                        old(self).machine(),
                        *s,
                        out,
                    ),
            decreases f,
        {
            let ghost m = self.machine();
            let c = match self.eval_expr(cond) {
                Ok(c) => c,
                Err(err) => {
                    proof {
                        lemma_head_fails(f as nat, m, *s, err);
                    }
                    return Err(err);
                },
            };
            let ghost p = choose|p: Picks<F>| #[trigger]
                eval_with(m.mem, *cond, p) == Some(Ok::<ValueView<F>, RuntimeError>(c@));
            match c {
                Value::Bool(true) => {},
                _ => {
                    proof {
                        assert(run_with(f as nat, m, *s, step(p, Seq::empty(), Trace::End, Trace::End))
                            == Some(Ok::<(Machine<F>, ValueView<F>), RuntimeError>((m, ValueView::Void))));
                        assert(runs(
                            f as nat,
                            m,
                            *s,
                            Ok::<(Machine<F>, ValueView<F>), RuntimeError>((m, ValueView::Void)),
                        ));
                    }
                    return Ok(Value::Void);
                },
            }
            if f == 0 {
                proof {
                    assert(run_with(f as nat, m, *s, step(p, Seq::empty(), Trace::End, Trace::End))
                        == Some(Err::<(Machine<F>, ValueView<F>), RuntimeError>(RuntimeError::OutOfFuel)));
                    assert(runs(
                        f as nat,
                        m,
                        *s,
                        Err::<(Machine<F>, ValueView<F>), RuntimeError>(RuntimeError::OutOfFuel),
                    ));
                }
                return Err(RuntimeError::OutOfFuel);
            }
            let ghost f0 = f;
            f = f - 1;
            let rb = self.run_stmts(f, body);
            let ghost t1 = choose|t: Trace<F>| #[trigger]
                block_with(f as nat, m, body@, 0, ValueView::Void, t) == Some(ran(rb, self.machine()));
            match rb {
                Ok(w) => {
                    proof {
                        lemma_loop_round(f0 as nat, m, *s, *cond, *body, p, t1, self.machine(), w@);
                    }
                },
                Err(err) => {
                    proof {
                        assert(run_with(f0 as nat, m, *s, step(p, Seq::empty(), t1, Trace::End))
                            == Some(Err::<(Machine<F>, ValueView<F>), RuntimeError>(err)));
                        assert(runs(f0 as nat, m, *s, Err::<(Machine<F>, ValueView<F>), RuntimeError>(err)));
                    }
                    return Err(err);
                },
            }
        }
    }

    /// The value of an expression under the variables declared so far, for
    /// some values of the steps the float arithmetic decides. Where the type
    /// checker gives the expression a type, under the types of the values
    /// held, a value it yields has that type, floats included, and it fails
    /// only with an arithmetic fault.
    pub fn eval_expr(&self, e: &Expr) -> (r: Result<Value<F>, RuntimeError>)
        ensures
            evaluates(self.machine().mem, *e, outcome(r)),
            literals_as_written::<F>(*e) ==> (expr_type(mem_types(self.machine().mem), *e) matches Ok(
                t,
            ) ==> (r matches Ok(v) ==> view_type(v@) == t)),
            literals_as_written::<F>(*e) && to_str_operands_typed(mem_types(self.machine().mem), *e)
                ==> (expr_type(mem_types(self.machine().mem), *e) is Ok ==> (r matches Err(err)
                ==> arithmetic_fault(err))),
        decreases e,
    {
        let ghost mem = self.machine().mem;
        match e {
            Expr::Int(t) => {
                let r = Value::from_str(t);
                proof {
                    assert(eval_with(mem, *e, single(outcome(r))) == Some(outcome(r)));
                }
                r
            },
            Expr::Float(t) => {
                let r = Value::from_str(t);
                proof {
                    assert(eval_with(mem, *e, single(outcome(r))) == Some(outcome(r)));
                }
                r
            },
            Expr::Str(t) => {
                proof {
                    if t@.len() >= 2 && t@[0] == '"' && t@.last() == '"' {
                        lemma_quoted_literal::<F>(*t);
                    }
                }
                let r = Value::from_str(t);
                proof {
                    assert(eval_with(mem, *e, single(outcome(r))) == Some(outcome(r)));
                }
                r
            },
            Expr::Char(t) => {
                proof {
                    if t@.len() >= 3 && t@[0] == '\'' && t@.last() == '\'' {
                        lemma_quoted_literal::<F>(*t);
                    }
                }
                let r = Value::from_str(t);
                proof {
                    assert(eval_with(mem, *e, single(outcome(r))) == Some(outcome(r)));
                }
                r
            },
            Expr::Bool(b) => {
                proof {
                    assert(eval_with(mem, *e, Picks::Leaf) == Some(
                        Ok::<ValueView<F>, RuntimeError>(ValueView::Bool(*b)),
                    ));
                }
                Ok(Value::Bool(*b))
            },
            Expr::Id(name) => {
                proof {
                    lemma_map_scopes(self.memory@, |v: Value<F>| v@, name@, Value::Void);
                    lemma_map_scopes(
                        self.machine().mem,
                        |v: ValueView<F>| view_type(v),
                        name@,
                        ValueView::Void,
                    );
                }
                let r = match self.memory.get(name.as_str()) {
                    Some(v) => Ok(v.duplicate()),
                    None => Err(RuntimeError::UnknownVariable(name.clone())),
                };
                proof {
                    assert(eval_with(mem, *e, Picks::Leaf) == Some(outcome(r)));
                }
                r
            },
            Expr::Paren(inner) => {
                let r = self.eval_expr(inner);
                proof {
                    let p = choose|p: Picks<F>| #[trigger] eval_with(mem, **inner, p) == Some(outcome(r));
                    assert(eval_with(mem, *e, p) == Some(outcome(r)));
                }
                r
            },
            Expr::Unary(op, operand) => {
                let v = match self.eval_expr(operand) {
                    Ok(v) => v,
                    Err(err) => {
                        proof {
                            lemma_operand_fails(mem, *e, **operand, err);
                        }
                        return Err(err);
                    },
                };
                proof {
                    lemma_unary_typed(*op, v@, Type::Void);
                }
                let ghost p1 = choose|p: Picks<F>| #[trigger]
                    eval_with(mem, **operand, p) == Some(Ok::<ValueView<F>, RuntimeError>(v@));
                let r = match op {
                    UnaryOp::Neg => v.neg(),
                    UnaryOp::Not => v.not(),
                };
                proof {
                    assert(eval_with(mem, *e, node(outcome(r), p1, Picks::Leaf)) == Some(outcome(r)));
                }
                r
            },
            Expr::Binary(op, lhs, rhs) => {
                let lv = match self.eval_expr(lhs) {
                    Ok(v) => v,
                    Err(err) => {
                        proof {
                            lemma_operand_fails(mem, *e, **lhs, err);
                        }
                        return Err(err);
                    },
                };
                let ghost p1 = choose|p: Picks<F>| #[trigger]
                    eval_with(mem, **lhs, p) == Some(Ok::<ValueView<F>, RuntimeError>(lv@));
                let rv = match self.eval_expr(rhs) {
                    Ok(v) => v,
                    Err(err) => {
                        proof {
                            let p2 = choose|p: Picks<F>| #[trigger]
                                eval_with(mem, **rhs, p) == Some(Err::<ValueView<F>, RuntimeError>(err));
                            assert(eval_with(mem, *e, node(Err(err), p1, p2)) == Some(
                                Err::<ValueView<F>, RuntimeError>(err),
                            ));
                        }
                        return Err(err);
                    },
                };
                let ghost p2 = choose|p: Picks<F>| #[trigger]
                    eval_with(mem, **rhs, p) == Some(Ok::<ValueView<F>, RuntimeError>(rv@));
                proof {
                    lemma_binary_typed(*op, lv@, rv@);
                }
                let r = apply_binary(*op, lv, rv);
                proof {
                    assert(eval_with(mem, *e, node(outcome(r), p1, p2)) == Some(outcome(r)));
                }
                r
            },
            Expr::Cast(to, operand) => {
                let v = match self.eval_expr(operand) {
                    Ok(v) => v,
                    Err(err) => {
                        proof {
                            lemma_operand_fails(mem, *e, **operand, err);
                        }
                        return Err(err);
                    },
                };
                proof {
                    lemma_unary_typed(UnaryOp::Not, v@, *to);
                }
                let ghost p1 = choose|p: Picks<F>| #[trigger]
                    eval_with(mem, **operand, p) == Some(Ok::<ValueView<F>, RuntimeError>(v@));
                let r = v.cast(*to);
                proof {
                    assert(eval_with(mem, *e, node(outcome(r), p1, Picks::Leaf)) == Some(outcome(r)));
                }
                r
            },
            Expr::ToStr(operand) => {
                let v = match self.eval_expr(operand) {
                    Ok(v) => v,
                    Err(err) => {
                        proof {
                            lemma_operand_fails(mem, *e, **operand, err);
                        }
                        return Err(err);
                    },
                };
                let ghost p1 = choose|p: Picks<F>| #[trigger]
                    eval_with(mem, **operand, p) == Some(Ok::<ValueView<F>, RuntimeError>(v@));
                let t = v.fmt();
                let r = Ok(Value::String(t));
                proof {
                    assert(eval_with(mem, *e, node(outcome(r), p1, Picks::Leaf)) == Some(outcome(r)));
                }
                r
            },
        }
    }
}

/// A binary operation on two evaluated operands. Values of different types
/// are not compared for equality, and an int is not raised to a negative int:
/// both are refused with the errors `binary_view` names.
pub fn apply_binary<F: FloatArith>(op: BinaryOp, lhs: Value<F>, rhs: Value<F>) -> (r: Result<
    Value<F>,
    RuntimeError,
>)
    ensures
        binary_view(op, lhs@, rhs@) matches Some(x) ==> outcome(r) == x,
        binary_view(op, lhs@, rhs@) is None ==> (r matches Ok(v) && undecided_allows(
            op,
            lhs@,
            rhs@,
            v@,
        )),
{
    match op {
        BinaryOp::Pow => {
            let negative = match (&lhs, &rhs) {
                (Value::Int(_), Value::Int(e)) => *e < 0,
                _ => false,
            };
            if negative {
                Err(RuntimeError::NegativeExponent)
            } else {
                lhs.pow(rhs)
            }
        },
        BinaryOp::Mul => lhs.mul(rhs),
        BinaryOp::Div => lhs.div(rhs),
        BinaryOp::Mod => lhs.rem(rhs),
        BinaryOp::Add => lhs.add(rhs),
        BinaryOp::Sub => lhs.sub(rhs),
        BinaryOp::Lt | BinaryOp::Le | BinaryOp::Gt | BinaryOp::Ge => {
            let b = lhs.partial_cmp(op, &rhs)?;
            Ok(Value::Bool(b))
        },
        BinaryOp::Eq | BinaryOp::Ne => {
            let lt = lhs.value_type();
            let rt = rhs.value_type();
            if lt != rt {
                return Err(RuntimeError::CannotCompare(lt, rt));
            }
            let b = lhs.eq(&rhs)?;
            if op == BinaryOp::Eq {
                Ok(Value::Bool(b))
            } else {
                Ok(Value::Bool(!b))
            }
        },
        BinaryOp::And => lhs.bitand(rhs),
        BinaryOp::Or => lhs.bitor(rhs),
        BinaryOp::Concat => Ok(lhs.concat(&rhs)),
    }
}

} // verus!
