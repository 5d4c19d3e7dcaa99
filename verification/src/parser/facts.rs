use vstd::prelude::*;
use crate::ast::{BinaryOp, Expr, Stmt, SyntaxTree, UnaryOp};
use crate::type_checker::value_type::Type;
use super::lexer::{views, Tok, Token, TokenView};
use super::{
    block_at, expr_at, stmt_eqv, stmts_eqv, op_level, op_token, open_stmt_at, prec, program_at, render_expr,
    render_program, render_stmt, render_stmts, spine_depth, spine_down, stmt_at, tok_level, wf_expr, wf_stmt, wf_stmts,
};

verus! {

/// Tokens written in `vt` from `pos`, seen through a window `[i, j)` of them.
pub proof fn lemma_views_window(vt: Seq<TokenView>, pos: int, ts: Seq<Token>, i: int, j: int)
    requires
        0 <= pos,
        pos + ts.len() <= vt.len(),
        vt.subrange(pos, pos + ts.len()) == views(ts),
        0 <= i <= j <= ts.len(),
    ensures
        vt.subrange(pos + i, pos + j) == views(ts.subrange(i, j)),
        i < ts.len() ==> vt[pos + i] == ts[i]@,
{
    assert forall|k: int| 0 <= k < ts.len() implies vt[pos + k] == ts[k]@ by {
        assert(vt.subrange(pos, pos + ts.len())[k] == views(ts)[k]);
    }
    assert(vt.subrange(pos + i, pos + j) =~= views(ts.subrange(i, j)));
}

/// A token an expression can start with.
pub open spec fn starts_expr<S>(t: Tok<S>) -> bool {
    ||| t is Int
    ||| t is Float
    ||| t is Str
    ||| t is Char
    ||| t is Id
    ||| t is TypeName
    ||| t is ToStr
    ||| t is True
    ||| t is False
    ||| t is LParen
    ||| t is Minus
    ||| t is Not
}

/// A token that can stand inside an expression.
pub open spec fn in_expr<S>(t: Tok<S>) -> bool {
    !(t is Let || t is If || t is Else || t is While || t is Print || t is LBrace || t is RBrace
        || t is Semi || t is Assign)
}

/// An expression is written with at least one token; its first token is one
/// an expression starts with, and it holds no token of a statement's frame.
pub proof fn lemma_render_expr(e: Expr)
    ensures
        render_expr(e).len() >= 1,
        starts_expr(render_expr(e)[0]),
        forall|i: int| 0 <= i < render_expr(e).len() ==> in_expr(#[trigger] render_expr(e)[i]),
    decreases e,
{
    match e {
        Expr::Paren(x) => {
            lemma_render_expr(*x);
            let rx = render_expr(*x);
            assert forall|i: int| 0 <= i < render_expr(e).len() implies in_expr(
                #[trigger] render_expr(e)[i],
            ) by {
                if 1 <= i < 1 + rx.len() {
                    assert(render_expr(e)[i] == rx[i - 1]);
                }
            }
        },
        Expr::Unary(op, x) => {
            lemma_render_expr(*x);
            let rx = render_expr(*x);
            assert forall|i: int| 0 <= i < render_expr(e).len() implies in_expr(
                #[trigger] render_expr(e)[i],
            ) by {
                if 1 <= i {
                    assert(render_expr(e)[i] == rx[i - 1]);
                }
            }
        },
        Expr::Binary(op, l, r) => {
            lemma_render_expr(*l);
            lemma_render_expr(*r);
            let rl = render_expr(*l);
            let rr = render_expr(*r);
            assert(render_expr(e)[0] == rl[0]);
            assert forall|i: int| 0 <= i < render_expr(e).len() implies in_expr(
                #[trigger] render_expr(e)[i],
            ) by {
                if i < rl.len() {
                    assert(render_expr(e)[i] == rl[i]);
                } else if i > rl.len() {
                    assert(render_expr(e)[i] == rr[i - rl.len() - 1]);
                }
            }
        },
        Expr::Cast(t, x) => {
            lemma_render_expr(*x);
            let rx = render_expr(*x);
            assert forall|i: int| 0 <= i < render_expr(e).len() implies in_expr(
                #[trigger] render_expr(e)[i],
            ) by {
                if 2 <= i < 2 + rx.len() {
                    assert(render_expr(e)[i] == rx[i - 2]);
                }
            }
        },
        Expr::ToStr(x) => {
            lemma_render_expr(*x);
            let rx = render_expr(*x);
            assert forall|i: int| 0 <= i < render_expr(e).len() implies in_expr(
                #[trigger] render_expr(e)[i],
            ) by {
                if 2 <= i < 2 + rx.len() {
                    assert(render_expr(e)[i] == rx[i - 2]);
                }
            }
        },
        _ => {},
    }
}

/// A binary operator's token binds as tightly as the operator does.
pub proof fn lemma_op_token(a: BinaryOp, b: BinaryOp)
    ensures
        tok_level(op_token(a)@) == op_level(a),
        op_token(a)@ == op_token(b)@ ==> a == b,
{
}

/// The operator of a binary expression.
pub open spec fn op_of(e: Expr) -> BinaryOp {
    match e {
        Expr::Binary(op, _, _) => op,
        _ => BinaryOp::Add,
    }
}

/// The right operand of a binary expression.
pub open spec fn right_of(e: Expr) -> Expr {
    match e {
        Expr::Binary(_, _, r) => *r,
        _ => e,
    }
}


/// The operand of a parenthesis, a unary operation, a cast or `to_str`.
pub open spec fn operand_of(e: Expr) -> Expr {
    match e {
        Expr::Paren(x) => *x,
        Expr::Unary(_, x) => *x,
        Expr::Cast(_, x) => *x,
        Expr::ToStr(x) => *x,
        _ => e,
    }
}

/// The left operand of a binary expression.
pub open spec fn left_of(e: Expr) -> Expr {
    match e {
        Expr::Binary(_, l, _) => *l,
        _ => e,
    }
}

/// Where the parts of an atom written at `pos` stand.
pub proof fn lemma_atom_at(vt: Seq<TokenView>, pos: int, e: Expr)
    requires
        expr_at(vt, pos, e, 9),
    ensures
        pos < vt.len(),
        vt[pos] == render_expr(e)[0]@,
        e is Int ==> vt[pos] == Tok::Int(e->Int_0@) && render_expr(e).len() == 1,
        e is Float ==> vt[pos] == Tok::Float(e->Float_0@) && render_expr(e).len() == 1,
        e is Str ==> vt[pos] == Tok::Str(e->Str_0@) && render_expr(e).len() == 1,
        e is Char ==> vt[pos] == Tok::Char(e->Char_0@) && render_expr(e).len() == 1,
        e is Id ==> vt[pos] == Tok::Id(e->Id_0@) && render_expr(e).len() == 1,
        e is Bool ==> vt[pos] == (if e->Bool_0 {
            Tok::<Seq<char>>::True
        } else {
            Tok::<Seq<char>>::False
        }) && render_expr(e).len() == 1,
        e is Paren ==> {
            let x = operand_of(e);
            &&& vt[pos] == Tok::<Seq<char>>::LParen
            &&& expr_at(vt, pos + 1, x, 1)
            &&& pos + 1 + render_expr(x).len() < vt.len()
            &&& vt[pos + 1 + render_expr(x).len()] == Tok::<Seq<char>>::RParen
            &&& render_expr(e).len() == render_expr(x).len() + 2
        },
        e is Cast ==> {
            let x = operand_of(e);
            &&& vt[pos] == Tok::<Seq<char>>::TypeName(e->Cast_0)
            &&& e->Cast_0 != Type::Void
            &&& vt[pos + 1] == Tok::<Seq<char>>::LParen
            &&& expr_at(vt, pos + 2, x, 1)
            &&& pos + 2 + render_expr(x).len() < vt.len()
            &&& vt[pos + 2 + render_expr(x).len()] == Tok::<Seq<char>>::RParen
            &&& render_expr(e).len() == render_expr(x).len() + 3
        },
        e is ToStr ==> {
            let x = operand_of(e);
            &&& vt[pos] == Tok::<Seq<char>>::ToStr
            &&& vt[pos + 1] == Tok::<Seq<char>>::LParen
            &&& expr_at(vt, pos + 2, x, 1)
            &&& pos + 2 + render_expr(x).len() < vt.len()
            &&& vt[pos + 2 + render_expr(x).len()] == Tok::<Seq<char>>::RParen
            &&& render_expr(e).len() == render_expr(x).len() + 3
        },
        !(e is Unary || e is Binary),
{
    let re = render_expr(e);
    lemma_render_expr(e);
    lemma_views_window(vt, pos, re, 0, 0);
    match e {
        Expr::Paren(x) => {
            let n = render_expr(*x).len() as int;
            lemma_render_expr(*x);
            lemma_views_window(vt, pos, re, 1, 1 + n);
            lemma_views_window(vt, pos, re, 1 + n, 1 + n);
            assert(re.subrange(1, 1 + n) =~= render_expr(*x));
        },
        Expr::Cast(t, x) => {
            let n = render_expr(*x).len() as int;
            lemma_render_expr(*x);
            lemma_views_window(vt, pos, re, 1, 1);
            lemma_views_window(vt, pos, re, 2, 2 + n);
            lemma_views_window(vt, pos, re, 2 + n, 2 + n);
            assert(re.subrange(2, 2 + n) =~= render_expr(*x));
        },
        Expr::ToStr(x) => {
            let n = render_expr(*x).len() as int;
            lemma_render_expr(*x);
            lemma_views_window(vt, pos, re, 1, 1);
            lemma_views_window(vt, pos, re, 2, 2 + n);
            lemma_views_window(vt, pos, re, 2 + n, 2 + n);
            assert(re.subrange(2, 2 + n) =~= render_expr(*x));
        },
        _ => {},
    }
}

/// An expression binding at level 8 written at `pos` is a unary operation,
/// whose operand follows its operator, or an atom.
pub proof fn lemma_unary_at(vt: Seq<TokenView>, pos: int, e: Expr)
    requires
        expr_at(vt, pos, e, 8),
    ensures
        pos < vt.len(),
        e is Unary ==> {
            let x = operand_of(e);
            &&& vt[pos] == (if e->Unary_0 == UnaryOp::Neg {
                Tok::<Seq<char>>::Minus
            } else {
                Tok::<Seq<char>>::Not
            })
            &&& expr_at(vt, pos + 1, x, 8)
            &&& render_expr(e).len() == render_expr(x).len() + 1
        },
        !(e is Unary) ==> expr_at(vt, pos, e, 9) && !(vt[pos] is Minus) && !(vt[pos] is Not),
{
    let re = render_expr(e);
    lemma_render_expr(e);
    lemma_views_window(vt, pos, re, 0, 0);
    match e {
        Expr::Unary(op, x) => {
            let n = render_expr(*x).len() as int;
            lemma_views_window(vt, pos, re, 1, 1 + n);
            assert(re.subrange(1, 1 + n) =~= render_expr(*x));
        },
        _ => {
            lemma_atom_at(vt, pos, e);
        },
    }
}

/// An expression binding at level 7 written at `pos` is a power, whose
/// base, `^` and exponent follow one another, or binds at level 8 and is not
/// followed by `^`.
pub proof fn lemma_pow_at(vt: Seq<TokenView>, pos: int, e: Expr)
    requires
        expr_at(vt, pos, e, 7),
    ensures
        e is Binary ==> {
            let l = left_of(e);
            let r = right_of(e);
            let at = pos + render_expr(l).len();
            &&& op_of(e) == BinaryOp::Pow
            &&& expr_at(vt, pos, l, 8)
            &&& at < vt.len()
            &&& vt[at] == Tok::<Seq<char>>::Caret
            &&& expr_at(vt, at + 1, r, 7)
            &&& render_expr(e).len() == render_expr(l).len() + 1 + render_expr(r).len()
        },
        !(e is Binary) ==> expr_at(vt, pos, e, 8) && (pos + render_expr(e).len() == vt.len()
            || vt[pos + render_expr(e).len()] != Tok::<Seq<char>>::Caret),
{
    let re = render_expr(e);
    match e {
        Expr::Binary(op, l, r) => {
            let nl = render_expr(*l).len() as int;
            let nr = render_expr(*r).len() as int;
            lemma_views_window(vt, pos, re, 0, nl);
            lemma_views_window(vt, pos, re, nl, nl);
            lemma_views_window(vt, pos, re, nl + 1, nl + 1 + nr);
            assert(re.subrange(0, nl) =~= render_expr(*l));
            assert(re.subrange(nl + 1, nl + 1 + nr) =~= render_expr(*r));
            lemma_render_expr(*r);
        },
        _ => {},
    }
}


/// A token a statement can start with.
pub open spec fn starts_stmt<S>(t: Tok<S>) -> bool {
    t is Let || t is Print || t is If || t is While || starts_expr(t)
}

/// A statement is written with at least two tokens, the first of which is one
/// a statement starts with.
pub proof fn lemma_render_stmt(s: Stmt)
    ensures
        render_stmt(s).len() >= 2,
        starts_stmt(render_stmt(s)[0]),
{
    match s {
        Stmt::Expr(e) => {
            lemma_render_expr(e);
            assert(render_stmt(s)[0] == render_expr(e)[0]);
        },
        Stmt::Decl(_, _, e) => {
            lemma_render_expr(e);
        },
        Stmt::Mutation(_, e) => {
            lemma_render_expr(e);
        },
        Stmt::Print(e) => {
            lemma_render_expr(e);
        },
        Stmt::If(c, _) => {
            lemma_render_expr(c);
        },
        Stmt::IfElse(c, _, _) => {
            lemma_render_expr(c);
        },
        Stmt::While(c, _) => {
            lemma_render_expr(c);
        },
    }
}

/// The tokens of the first `k` statements begin those of the first `n`, and
/// each of those statements is well formed when the `n` are.
pub proof fn lemma_stmts_prefix(ss: Seq<Stmt>, k: nat, n: nat)
    requires
        k <= n <= ss.len(),
    ensures
        render_stmts(ss, k).len() <= render_stmts(ss, n).len(),
        k < n ==> render_stmts(ss, k).len() < render_stmts(ss, n).len(),
        render_stmts(ss, n).subrange(0, render_stmts(ss, k).len() as int) == render_stmts(ss, k),
        k < n && wf_stmts(ss, n) ==> wf_stmt(ss[k as int]),
        k < n ==> render_stmts(ss, k + 1) == render_stmts(ss, k) + render_stmt(ss[k as int]),
    decreases n,
{
    if k == n {
        assert(render_stmts(ss, n).subrange(0, render_stmts(ss, n).len() as int) =~= render_stmts(
            ss,
            n,
        ));
    } else {
        lemma_stmts_prefix(ss, k, (n - 1) as nat);
        lemma_render_stmt(ss[n - 1]);
        let a = render_stmts(ss, (n - 1) as nat);
        let m = render_stmts(ss, k).len() as int;
        assert((a + render_stmt(ss[n - 1])).subrange(0, m) =~= a.subrange(0, m));
    }
}

/// Where the statements of a block written at `pos` stand: the `k`-th starts
/// after the tokens of those before it and is followed by no `else`; after
/// the last comes the `}`.
pub proof fn lemma_block_at(vt: Seq<TokenView>, pos: int, ss: Seq<Stmt>, k: nat)
    requires
        block_at(vt, pos, ss),
        k <= ss.len(),
    ensures
        pos + render_stmts(ss, k).len() < vt.len(),
        k == ss.len() ==> vt[pos + render_stmts(ss, k).len()] == Tok::<Seq<char>>::RBrace,
        k < ss.len() ==> {
            &&& stmt_at(vt, pos + render_stmts(ss, k).len(), ss[k as int])
            &&& starts_stmt(vt[pos + render_stmts(ss, k).len()])
            &&& render_stmts(ss, k + 1).len() == render_stmts(ss, k).len() + render_stmt(
                ss[k as int],
            ).len()
        },
{
    let n = ss.len();
    let all = render_stmts(ss, n);
    lemma_stmts_prefix(ss, k, n);
    if k < n {
        let s = ss[k as int];
        let a = render_stmts(ss, k).len() as int;
        let b = render_stmts(ss, k + 1).len() as int;
        lemma_stmts_prefix(ss, k + 1, n);
        lemma_render_stmt(s);
        lemma_views_window(vt, pos, all, a, b);
        assert(all.subrange(a, b) =~= render_stmt(s)) by {
            assert(all.subrange(0, b) == render_stmts(ss, k) + render_stmt(s));
            assert forall|i: int| 0 <= i < b - a implies all.subrange(a, b)[i] == render_stmt(
                s,
            )[i] by {
                assert(all.subrange(0, b)[a + i] == all[a + i]);
            }
        }
        lemma_views_window(vt, pos + a, render_stmt(s), 0, 0);
        if k + 1 < n {
            let t = ss[k + 1 as int];
            let c = render_stmts(ss, k + 2).len() as int;
            lemma_stmts_prefix(ss, k + 2, n);
            lemma_stmts_prefix(ss, k + 1, k + 2);
            lemma_render_stmt(t);
            lemma_views_window(vt, pos, all, b, b);
            assert(all[b] == render_stmt(t)[0]) by {
                assert(all.subrange(0, c)[b] == all[b]);
                assert(render_stmts(ss, k + 2)[b] == render_stmt(t)[0]);
            }
        }
    }
}

/// Where the parts of a statement written at `pos` stand.
pub proof fn lemma_stmt_at(vt: Seq<TokenView>, pos: int, s: Stmt)
    requires
        stmt_at(vt, pos, s),
    ensures
        pos < vt.len(),
        vt[pos] == render_stmt(s)[0]@,
        starts_stmt(vt[pos]),
        s is Decl ==> {
            let e = s->Decl_2;
            let n = render_expr(e).len();
            &&& vt[pos] == Tok::<Seq<char>>::Let
            &&& vt[pos + 1] == Tok::<Seq<char>>::Id(s->Decl_0@)
            &&& s->Decl_1 is Some ==> {
                &&& vt[pos + 2] == Tok::<Seq<char>>::Colon
                &&& vt[pos + 3] == Tok::<Seq<char>>::TypeName(s->Decl_1->Some_0)
                &&& s->Decl_1->Some_0 != Type::Void
                &&& vt[pos + 4] == Tok::<Seq<char>>::Assign
                &&& expr_at(vt, pos + 5, e, 1)
                &&& vt[pos + 5 + n] == Tok::<Seq<char>>::Semi
                &&& render_stmt(s).len() == n + 6
            }
            &&& s->Decl_1 is None ==> {
                &&& vt[pos + 2] == Tok::<Seq<char>>::Assign
                &&& expr_at(vt, pos + 3, e, 1)
                &&& vt[pos + 3 + n] == Tok::<Seq<char>>::Semi
                &&& render_stmt(s).len() == n + 4
            }
        },
        s is Mutation ==> {
            let e = s->Mutation_1;
            let n = render_expr(e).len();
            &&& vt[pos] == Tok::<Seq<char>>::Id(s->Mutation_0@)
            &&& vt[pos + 1] == Tok::<Seq<char>>::Assign
            &&& expr_at(vt, pos + 2, e, 1)
            &&& vt[pos + 2 + n] == Tok::<Seq<char>>::Semi
            &&& render_stmt(s).len() == n + 3
        },
        s is Print ==> {
            let e = s->Print_0;
            let n = render_expr(e).len();
            &&& vt[pos] == Tok::<Seq<char>>::Print
            &&& vt[pos + 1] == Tok::<Seq<char>>::LParen
            &&& expr_at(vt, pos + 2, e, 1)
            &&& vt[pos + 2 + n] == Tok::<Seq<char>>::RParen
            &&& vt[pos + 3 + n] == Tok::<Seq<char>>::Semi
            &&& render_stmt(s).len() == n + 4
        },
        s is Expr ==> {
            let e = s->Expr_0;
            let n = render_expr(e).len();
            &&& expr_at(vt, pos, e, 1)
            &&& starts_expr(vt[pos])
            &&& vt[pos + n] == Tok::<Seq<char>>::Semi
            &&& render_stmt(s).len() == n + 1
            &&& vt[pos + 1] != Tok::<Seq<char>>::Assign
        },
        s is If ==> {
            let c = s->If_0;
            let body = s->If_1@;
            let n = render_expr(c).len();
            let m = render_stmts(body, body.len()).len();
            let end = pos + render_stmt(s).len();
            &&& vt[pos] == Tok::<Seq<char>>::If
            &&& expr_at(vt, pos + 1, c, 1)
            &&& vt[pos + 1 + n] == Tok::<Seq<char>>::LBrace
            &&& block_at(vt, pos + 2 + n, body)
            &&& render_stmt(s).len() == n + m + 3
            &&& (end == vt.len() || vt[end] != Tok::<Seq<char>>::Else)
        },
        s is IfElse ==> {
            let c = s->IfElse_0;
            let yes = s->IfElse_1@;
            let no = s->IfElse_2@;
            let n = render_expr(c).len();
            let m = render_stmts(yes, yes.len()).len();
            let at = pos + 2 + n + m + 1;
            &&& vt[pos] == Tok::<Seq<char>>::If
            &&& expr_at(vt, pos + 1, c, 1)
            &&& vt[pos + 1 + n] == Tok::<Seq<char>>::LBrace
            &&& block_at(vt, pos + 2 + n, yes)
            &&& vt[at] == Tok::<Seq<char>>::Else
            &&& vt[at + 1] == Tok::<Seq<char>>::LBrace
            &&& block_at(vt, at + 2, no)
            &&& render_stmt(s).len() == n + m + render_stmts(no, no.len()).len() + 6
        },
        s is While ==> {
            let c = s->While_0;
            let body = s->While_1@;
            let n = render_expr(c).len();
            let m = render_stmts(body, body.len()).len();
            &&& vt[pos] == Tok::<Seq<char>>::While
            &&& expr_at(vt, pos + 1, c, 1)
            &&& vt[pos + 1 + n] == Tok::<Seq<char>>::LBrace
            &&& block_at(vt, pos + 2 + n, body)
            &&& render_stmt(s).len() == n + m + 3
        },
{
    lemma_render_stmt(s);
    lemma_views_window(vt, pos, render_stmt(s), 0, 0);
    match s {
        Stmt::Decl(..) => lemma_decl_at(vt, pos, s),
        Stmt::Mutation(..) => lemma_mutation_at(vt, pos, s),
        Stmt::Print(..) => lemma_print_at(vt, pos, s),
        Stmt::Expr(..) => lemma_expr_at(vt, pos, s),
        Stmt::If(..) => lemma_if_at(vt, pos, s),
        Stmt::IfElse(..) => lemma_ifelse_at(vt, pos, s),
        Stmt::While(..) => lemma_while_at(vt, pos, s),
    }
}

/// Where the parts of a declaration written at `pos` stand.
proof fn lemma_decl_at(vt: Seq<TokenView>, pos: int, s: Stmt)
    requires
        stmt_at(vt, pos, s),
        s is Decl,
    ensures
        ({
            let e = s->Decl_2;
            let n = render_expr(e).len();
            &&& vt[pos] == Tok::<Seq<char>>::Let
            &&& vt[pos + 1] == Tok::<Seq<char>>::Id(s->Decl_0@)
            &&& s->Decl_1 is Some ==> {
                &&& vt[pos + 2] == Tok::<Seq<char>>::Colon
                &&& vt[pos + 3] == Tok::<Seq<char>>::TypeName(s->Decl_1->Some_0)
                &&& s->Decl_1->Some_0 != Type::Void
                &&& vt[pos + 4] == Tok::<Seq<char>>::Assign
                &&& expr_at(vt, pos + 5, e, 1)
                &&& vt[pos + 5 + n] == Tok::<Seq<char>>::Semi
                &&& render_stmt(s).len() == n + 6
            }
            &&& s->Decl_1 is None ==> {
                &&& vt[pos + 2] == Tok::<Seq<char>>::Assign
                &&& expr_at(vt, pos + 3, e, 1)
                &&& vt[pos + 3 + n] == Tok::<Seq<char>>::Semi
                &&& render_stmt(s).len() == n + 4
            }
        }),
{
    let rs = render_stmt(s);
    lemma_render_stmt(s);
    lemma_views_window(vt, pos, rs, 0, 0);
    match s {
        Stmt::Decl(id, t, e) => {
            let n = render_expr(e).len() as int;
            lemma_views_window(vt, pos, rs, 1, 1);
            lemma_views_window(vt, pos, rs, 2, 2);
            if t is Some {
                lemma_views_window(vt, pos, rs, 3, 3);
                lemma_views_window(vt, pos, rs, 4, 4);
                lemma_views_window(vt, pos, rs, 5, 5 + n);
                lemma_views_window(vt, pos, rs, 5 + n, 5 + n);
                assert(rs.subrange(5, 5 + n) =~= render_expr(e));
            } else {
                lemma_views_window(vt, pos, rs, 3, 3 + n);
                lemma_views_window(vt, pos, rs, 3 + n, 3 + n);
                assert(rs.subrange(3, 3 + n) =~= render_expr(e));
            }
        },
        _ => {},
    }
}

/// Where the parts of an assignment written at `pos` stand.
proof fn lemma_mutation_at(vt: Seq<TokenView>, pos: int, s: Stmt)
    requires
        stmt_at(vt, pos, s),
        s is Mutation,
    ensures
        ({
            let e = s->Mutation_1;
            let n = render_expr(e).len();
            &&& vt[pos] == Tok::<Seq<char>>::Id(s->Mutation_0@)
            &&& vt[pos + 1] == Tok::<Seq<char>>::Assign
            &&& expr_at(vt, pos + 2, e, 1)
            &&& vt[pos + 2 + n] == Tok::<Seq<char>>::Semi
            &&& render_stmt(s).len() == n + 3
        }),
{
    let rs = render_stmt(s);
    lemma_render_stmt(s);
    lemma_views_window(vt, pos, rs, 0, 0);
    match s {
        Stmt::Mutation(id, e) => {
            let n = render_expr(e).len() as int;
            lemma_views_window(vt, pos, rs, 1, 1);
            lemma_views_window(vt, pos, rs, 2, 2 + n);
            lemma_views_window(vt, pos, rs, 2 + n, 2 + n);
            assert(rs.subrange(2, 2 + n) =~= render_expr(e));
        },
        _ => {},
    }
}

/// Where the parts of a `print` written at `pos` stand.
proof fn lemma_print_at(vt: Seq<TokenView>, pos: int, s: Stmt)
    requires
        stmt_at(vt, pos, s),
        s is Print,
    ensures
        ({
            let e = s->Print_0;
            let n = render_expr(e).len();
            &&& vt[pos] == Tok::<Seq<char>>::Print
            &&& vt[pos + 1] == Tok::<Seq<char>>::LParen
            &&& expr_at(vt, pos + 2, e, 1)
            &&& vt[pos + 2 + n] == Tok::<Seq<char>>::RParen
            &&& vt[pos + 3 + n] == Tok::<Seq<char>>::Semi
            &&& render_stmt(s).len() == n + 4
        }),
{
    let rs = render_stmt(s);
    lemma_render_stmt(s);
    lemma_views_window(vt, pos, rs, 0, 0);
    match s {
        Stmt::Print(e) => {
            let n = render_expr(e).len() as int;
            lemma_views_window(vt, pos, rs, 1, 1);
            lemma_views_window(vt, pos, rs, 2, 2 + n);
            lemma_views_window(vt, pos, rs, 2 + n, 2 + n);
            lemma_views_window(vt, pos, rs, 3 + n, 3 + n);
            assert(rs.subrange(2, 2 + n) =~= render_expr(e));
        },
        _ => {},
    }
}

/// Where the parts of an expression statement written at `pos` stand.
proof fn lemma_expr_at(vt: Seq<TokenView>, pos: int, s: Stmt)
    requires
        stmt_at(vt, pos, s),
        s is Expr,
    ensures
        ({
            let e = s->Expr_0;
            let n = render_expr(e).len();
            &&& expr_at(vt, pos, e, 1)
            &&& starts_expr(vt[pos])
            &&& vt[pos + n] == Tok::<Seq<char>>::Semi
            &&& render_stmt(s).len() == n + 1
            &&& vt[pos + 1] != Tok::<Seq<char>>::Assign
        }),
{
    let rs = render_stmt(s);
    lemma_render_stmt(s);
    lemma_views_window(vt, pos, rs, 0, 0);
    match s {
        Stmt::Expr(e) => {
            let n = render_expr(e).len() as int;
            lemma_render_expr(e);
            lemma_views_window(vt, pos, rs, 0, n);
            lemma_views_window(vt, pos, rs, n, n);
            lemma_views_window(vt, pos, rs, 1, 1);
            assert(rs.subrange(0, n) =~= render_expr(e));
            if n > 1 {
                assert(rs[1] == render_expr(e)[1]);
            }
        },
        _ => {},
    }
}

/// Where the parts of an `if` without `else` written at `pos` stand.
proof fn lemma_if_at(vt: Seq<TokenView>, pos: int, s: Stmt)
    requires
        stmt_at(vt, pos, s),
        s is If,
    ensures
        ({
            let c = s->If_0;
            let body = s->If_1@;
            let n = render_expr(c).len();
            let m = render_stmts(body, body.len()).len();
            let end = pos + render_stmt(s).len();
            &&& vt[pos] == Tok::<Seq<char>>::If
            &&& expr_at(vt, pos + 1, c, 1)
            &&& vt[pos + 1 + n] == Tok::<Seq<char>>::LBrace
            &&& block_at(vt, pos + 2 + n, body)
            &&& render_stmt(s).len() == n + m + 3
            &&& (end == vt.len() || vt[end] != Tok::<Seq<char>>::Else)
        }),
{
    let rs = render_stmt(s);
    lemma_render_stmt(s);
    lemma_views_window(vt, pos, rs, 0, 0);
    match s {
        Stmt::If(c, body) => {
            let n = render_expr(c).len() as int;
            let rb = render_stmts(body@, body@.len());
            let m = rb.len() as int;
            lemma_views_window(vt, pos, rs, 1, 1 + n);
            lemma_views_window(vt, pos, rs, 1 + n, 1 + n);
            lemma_views_window(vt, pos, rs, 2 + n, 2 + n + m);
            lemma_views_window(vt, pos, rs, 2 + n + m, 2 + n + m);
            assert(rs.subrange(1, 1 + n) =~= render_expr(c));
            assert(rs.subrange(2 + n, 2 + n + m) =~= rb);
        },
        _ => {},
    }
}

/// Where the parts of an `if` with `else` written at `pos` stand.
proof fn lemma_ifelse_at(vt: Seq<TokenView>, pos: int, s: Stmt)
    requires
        stmt_at(vt, pos, s),
        s is IfElse,
    ensures
        ({
            let c = s->IfElse_0;
            let yes = s->IfElse_1@;
            let no = s->IfElse_2@;
            let n = render_expr(c).len();
            let m = render_stmts(yes, yes.len()).len();
            let at = pos + 2 + n + m + 1;
            &&& vt[pos] == Tok::<Seq<char>>::If
            &&& expr_at(vt, pos + 1, c, 1)
            &&& vt[pos + 1 + n] == Tok::<Seq<char>>::LBrace
            &&& block_at(vt, pos + 2 + n, yes)
            &&& vt[at] == Tok::<Seq<char>>::Else
            &&& vt[at + 1] == Tok::<Seq<char>>::LBrace
            &&& block_at(vt, at + 2, no)
            &&& render_stmt(s).len() == n + m + render_stmts(no, no.len()).len() + 6
        }),
{
    let rs = render_stmt(s);
    lemma_render_stmt(s);
    lemma_views_window(vt, pos, rs, 0, 0);
    match s {
        Stmt::IfElse(c, yes, no) => {
            let n = render_expr(c).len() as int;
            let ry = render_stmts(yes@, yes@.len());
            let rn = render_stmts(no@, no@.len());
            let m = ry.len() as int;
            let at = 2 + n + m + 1;
            let q = rn.len() as int;
            lemma_views_window(vt, pos, rs, 1, 1 + n);
            lemma_views_window(vt, pos, rs, 1 + n, 1 + n);
            lemma_views_window(vt, pos, rs, 2 + n, 2 + n + m);
            lemma_views_window(vt, pos, rs, 2 + n + m, 2 + n + m);
            lemma_views_window(vt, pos, rs, at, at);
            lemma_views_window(vt, pos, rs, at + 1, at + 1);
            lemma_views_window(vt, pos, rs, at + 2, at + 2 + q);
            lemma_views_window(vt, pos, rs, at + 2 + q, at + 2 + q);
            assert(rs.subrange(1, 1 + n) =~= render_expr(c));
            assert(rs.subrange(2 + n, 2 + n + m) =~= ry);
            assert(rs.subrange(at + 2, at + 2 + q) =~= rn);
        },
        _ => {},
    }
}

/// Where the parts of a `while` written at `pos` stand.
proof fn lemma_while_at(vt: Seq<TokenView>, pos: int, s: Stmt)
    requires
        stmt_at(vt, pos, s),
        s is While,
    ensures
        ({
            let c = s->While_0;
            let body = s->While_1@;
            let n = render_expr(c).len();
            let m = render_stmts(body, body.len()).len();
            &&& vt[pos] == Tok::<Seq<char>>::While
            &&& expr_at(vt, pos + 1, c, 1)
            &&& vt[pos + 1 + n] == Tok::<Seq<char>>::LBrace
            &&& block_at(vt, pos + 2 + n, body)
            &&& render_stmt(s).len() == n + m + 3
        }),
{
    let rs = render_stmt(s);
    lemma_render_stmt(s);
    lemma_views_window(vt, pos, rs, 0, 0);
    match s {
        Stmt::While(c, body) => {
            let n = render_expr(c).len() as int;
            let rb = render_stmts(body@, body@.len());
            let m = rb.len() as int;
            lemma_views_window(vt, pos, rs, 1, 1 + n);
            lemma_views_window(vt, pos, rs, 1 + n, 1 + n);
            lemma_views_window(vt, pos, rs, 2 + n, 2 + n + m);
            lemma_views_window(vt, pos, rs, 2 + n + m, 2 + n + m);
            assert(rs.subrange(1, 1 + n) =~= render_expr(c));
            assert(rs.subrange(2 + n, 2 + n + m) =~= rb);
        },
        _ => {},
    }
}

/// An expression statement written to the end without its `;`.
pub proof fn lemma_open_stmt_at(vt: Seq<TokenView>, pos: int, e: Expr)
    requires
        open_stmt_at(vt, pos, e),
    ensures
        expr_at(vt, pos, e, 1),
        pos < vt.len(),
        starts_expr(vt[pos]),
        pos + 1 < vt.len() ==> vt[pos + 1] != Tok::<Seq<char>>::Assign,
{
    let re = render_expr(e);
    lemma_render_expr(e);
    assert(vt.subrange(pos, pos + re.len()) == views(re));
    lemma_views_window(vt, pos, re, 0, 0);
    if re.len() > 1 {
        lemma_views_window(vt, pos, re, 1, 1);
    }
}


/// Where the statements of a program written as `vt` stand: the `k`-th starts
/// after the tokens of those before it; each is written whole and followed by
/// no `else`, but a last expression statement whose `;` was left out, which
/// runs to the end.
pub proof fn lemma_program_at(vt: Seq<TokenView>, p: SyntaxTree, k: nat)
    requires
        program_at(vt, p),
        k <= p.stmts@.len(),
    ensures
        ({
            let ps = p.stmts@;
            let n = ps.len();
            let at = render_stmts(ps, k).len() as int;
            let whole = views(render_program(p)) == vt;
            &&& k == n && whole ==> at == vt.len()
            &&& k < n ==> at < vt.len()
            &&& k < n && (whole || k + 1 < n) ==> {
                &&& stmt_at(vt, at, ps[k as int])
                &&& render_stmts(ps, k + 1).len() == at + render_stmt(ps[k as int]).len()
            }
            &&& k < n && !whole && k + 1 == n ==> {
                &&& ps[k as int] is Expr
                &&& open_stmt_at(vt, at, ps[k as int]->Expr_0)
            }
        }),
{
    let ps = p.stmts@;
    let n = ps.len();
    let rr = render_stmts(ps, n);
    let whole = views(render_program(p)) == vt;
    let t = if whole {
        rr
    } else {
        rr.subrange(0, rr.len() - 1)
    };
    if !whole {
        assert(views(rr) == vt.push(Tok::Semi));
        assert(views(rr).len() == rr.len());
        assert forall|i: int| 0 <= i < vt.len() implies views(t)[i] == vt[i] by {
            assert(views(rr)[i] == vt.push(Tok::Semi)[i]);
        }
    }
    assert(views(t) =~= vt);
    assert(vt.subrange(0, t.len() as int) =~= vt);
    lemma_stmts_prefix(ps, k, n);
    let a = render_stmts(ps, k).len() as int;
    if !whole {
        lemma_stmts_prefix(ps, (n - 1) as nat, n);
        lemma_render_expr(ps[n - 1]->Expr_0);
        assert(render_stmts(ps, (n - 1) as nat).len() < t.len());
        if k < n {
            lemma_stmts_prefix(ps, k, (n - 1) as nat);
        }
    }
    if k < n && (whole || k + 1 < n) {
        let s = ps[k as int];
        let b = render_stmts(ps, k + 1).len() as int;
        lemma_stmts_prefix(ps, k + 1, n);
        lemma_render_stmt(s);
        if !whole {
            lemma_stmts_prefix(ps, k + 1, (n - 1) as nat);
        }
        assert(b <= t.len());
        lemma_views_window(vt, 0, t, a, b);
        assert(t.subrange(a, b) =~= render_stmt(s)) by {
            assert(rr.subrange(0, b) == render_stmts(ps, k) + render_stmt(s));
            assert forall|i: int| 0 <= i < b - a implies t.subrange(a, b)[i] == render_stmt(
                s,
            )[i] by {
                assert(rr.subrange(0, b)[a + i] == rr[a + i]);
            }
        }
        if k + 1 < n {
            let u = ps[k + 1 as int];
            let c = render_stmts(ps, k + 2).len() as int;
            lemma_stmts_prefix(ps, k + 2, n);
            lemma_stmts_prefix(ps, k + 1, k + 2);
            lemma_render_stmt(u);
            if b < t.len() {
                lemma_views_window(vt, 0, t, b, b);
                assert(rr[b] == render_stmt(u)[0]) by {
                    assert(rr.subrange(0, c)[b] == rr[b]);
                    assert(render_stmts(ps, k + 2)[b] == render_stmt(u)[0]);
                }
            }
        }
    }
    if k < n && !whole && k + 1 == n {
        let e = ps[k as int]->Expr_0;
        let re = render_expr(e);
        assert(rr == render_stmts(ps, k) + (re + seq![Tok::Semi]));
        assert(t.subrange(a, t.len() as int) =~= re);
        lemma_views_window(vt, 0, t, a, t.len() as int);
    }
}


/// Equivalence of the first `k` statements is unchanged by pushing onto the
/// first sequence past them, and one more is equivalent when the pushed
/// statement is equivalent to the next of the second.
pub proof fn lemma_stmts_eqv_push(a: Seq<Stmt>, x: Stmt, b: Seq<Stmt>, k: nat)
    requires
        k <= a.len(),
    ensures
        stmts_eqv(a.push(x), b, k) == stmts_eqv(a, b, k),
        k == a.len() ==> (stmts_eqv(a.push(x), b, k + 1) == (stmts_eqv(a, b, k) && k < b.len()
            && stmt_eqv(x, b[k as int]))),
    decreases k,
{
    if k > 0 {
        lemma_stmts_eqv_push(a, x, b, (k - 1) as nat);
        assert(a.push(x)[k - 1] == a[k - 1]);
    }
    assert(stmts_eqv(a.push(x), b, k) == stmts_eqv(a, b, k));
    if k == a.len() {
        assert(a.push(x)[k as int] == x);
    }
}

/// Going `k` steps down the left edge of a well-formed expression through
/// operators of level `level` meets well-formed expressions written as
/// prefixes of `e`; each of the first `spine_depth` is an operation of that
/// level whose right operand binds tighter, and the last binds tighter too.
pub proof fn lemma_spine(e: Expr, level: nat, k: nat)
    requires
        wf_expr(e),
        prec(e) >= level,
        1 <= level <= 6,
        k <= spine_depth(e, level),
    ensures
        wf_expr(spine_down(e, k)),
        prec(spine_down(e, k)) >= level,
        render_expr(spine_down(e, k)).len() <= render_expr(e).len(),
        render_expr(e).subrange(0, render_expr(spine_down(e, k)).len() as int) == render_expr(
            spine_down(e, k),
        ),
        k == spine_depth(e, level) ==> prec(spine_down(e, k)) > level,
        k < spine_depth(e, level) ==> {
            &&& spine_down(e, k) == Expr::Binary(
                op_of(spine_down(e, k)),
                Box::new(spine_down(e, (k + 1) as nat)),
                Box::new(right_of(spine_down(e, k))),
            )
            &&& op_level(op_of(spine_down(e, k))) == level
            &&& wf_expr(right_of(spine_down(e, k)))
            &&& prec(right_of(spine_down(e, k))) > level
            &&& render_expr(spine_down(e, k)) == render_expr(spine_down(e, (k + 1) as nat)) + seq![
                op_token(op_of(spine_down(e, k))),
            ] + render_expr(right_of(spine_down(e, k)))
        },
    decreases k,
{
    match e {
        Expr::Binary(op, l, r) => {
            if k == 0 {
                assert(render_expr(e).subrange(0, render_expr(e).len() as int) =~= render_expr(e));
                if op_level(op) == level {
                    assert(spine_down(e, 1) == *l);
                }
            } else {
                lemma_spine(*l, level, (k - 1) as nat);
                assert(spine_down(e, k) == spine_down(*l, (k - 1) as nat));
                assert(spine_down(e, (k + 1) as nat) == spine_down(*l, k));
                let n = render_expr(spine_down(e, k)).len() as int;
                assert(render_expr(e).subrange(0, n) =~= render_expr(*l).subrange(0, n));
            }
        },
        _ => {
            assert(render_expr(e).subrange(0, render_expr(e).len() as int) =~= render_expr(e));
        },
    }
}

/// The operand at the bottom of the left edge of `e`, followed by what can
/// no longer continue an operand of the next level.
pub proof fn lemma_spine_base(vt: Seq<TokenView>, pos: int, e: Expr, level: nat)
    requires
        expr_at(vt, pos, e, level),
        1 <= level <= 6,
    ensures
        expr_at(vt, pos, spine_down(e, spine_depth(e, level)), level + 1),
{
    let d = spine_depth(e, level);
    let base = spine_down(e, d);
    let re = render_expr(e);
    lemma_spine(e, level, d);
    lemma_views_window(vt, pos, re, 0, render_expr(base).len() as int);
    if d > 0 {
        lemma_spine(e, level, (d - 1) as nat);
        let up = spine_down(e, (d - 1) as nat);
        let n = render_expr(base).len() as int;
        assert(render_expr(up)[n] == op_token(op_of(up)));
        assert(re[n] == render_expr(up)[n]);
        lemma_views_window(vt, pos, re, n, n);
        lemma_op_token(op_of(up), op_of(up));
    }
}

/// Step `k` (counted from the bottom) up the left edge of `e`: after the
/// operand written so far come the operator and its right operand, followed
/// by what can no longer continue an operand of the next level.
pub proof fn lemma_spine_step(vt: Seq<TokenView>, pos: int, e: Expr, level: nat, k: nat)
    requires
        expr_at(vt, pos, e, level),
        1 <= level <= 6,
        k < spine_depth(e, level),
    ensures
        ({
            let j = (spine_depth(e, level) - k - 1) as nat;
            let node = spine_down(e, j);
            let below = spine_down(e, j + 1);
            let at = pos + render_expr(below).len();
            &&& node == Expr::Binary(op_of(node), Box::new(below), Box::new(right_of(node)))
            &&& op_level(op_of(node)) == level
            &&& at < vt.len()
            &&& vt[at] == op_token(op_of(node))@
            &&& expr_at(vt, at + 1, right_of(node), level + 1)
            &&& render_expr(node).len() == render_expr(below).len() + 1 + render_expr(
                right_of(node),
            ).len()
        }),
{
    let d = spine_depth(e, level);
    let j = (d - k - 1) as nat;
    let node = spine_down(e, j);
    let below = spine_down(e, j + 1);
    let r = right_of(node);
    let re = render_expr(e);
    let rn = render_expr(node);
    let nb = render_expr(below).len() as int;
    let nr = render_expr(r).len() as int;
    lemma_spine(e, level, j);
    lemma_views_window(vt, pos, re, 0, rn.len() as int);
    lemma_views_window(vt, pos, rn, nb, nb + 1 + nr);
    lemma_views_window(vt, pos, rn, nb + 1, nb + 1 + nr);
    assert(rn.subrange(nb + 1, nb + 1 + nr) =~= render_expr(r));
    assert(rn[nb] == op_token(op_of(node)));
    lemma_op_token(op_of(node), op_of(node));
    if j > 0 {
        lemma_spine(e, level, (j - 1) as nat);
        let up = spine_down(e, (j - 1) as nat);
        let n = rn.len() as int;
        assert(render_expr(up)[n] == op_token(op_of(up)));
        assert(re[n] == render_expr(up)[n]);
        lemma_views_window(vt, pos, re, n, n);
        lemma_op_token(op_of(up), op_of(up));
    } else {
        assert(node == e);
    }
}

} // verus!
