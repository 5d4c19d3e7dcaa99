pub mod facts;
pub mod lexer;

use vstd::prelude::*;
use crate::ast::{BinaryOp, Expr, Stmt, SyntaxTree, UnaryOp};
use crate::type_checker::value_type::Type;
use lexer::{lex, tokenize, views, LexError, Tok, Token, TokenView};
use facts::{
    lemma_atom_at, lemma_block_at, lemma_op_token, lemma_open_stmt_at, lemma_pow_at,
    lemma_program_at, lemma_spine_base, lemma_spine_step, lemma_stmt_at, lemma_stmts_eqv_push,
    lemma_unary_at, left_of, op_of, operand_of, right_of, starts_expr,
};

verus! {

/// Why a text is not a program.
#[derive(Debug, PartialEq, Eq, Clone, Copy)]
pub enum ParseError {
    /// The text could not be split into tokens.
    Lex(LexError),
    /// The token at this index (counted in tokens) cannot stand where it does.
    UnexpectedToken(usize),
    /// The tokens ended where more were needed.
    UnexpectedEnd,
}

/// An error the parser raises on a sequence of `n` tokens: an unexpected
/// token at an index below `n`, or an unexpected end.
pub open spec fn parse_failure(e: ParseError, n: int) -> bool {
    match e {
        ParseError::Lex(_) => false,
        ParseError::UnexpectedToken(i) => i < n,
        ParseError::UnexpectedEnd => true,
    }
}

/// How tightly a binary operator binds: `and`/`or` loosest, then equality,
/// comparison, `:`, `+`/`-`, `*`/`/`/`mod`, and `^` tightest.
pub open spec fn op_level(op: BinaryOp) -> nat {
    match op {
        BinaryOp::And | BinaryOp::Or => 1,
        BinaryOp::Eq | BinaryOp::Ne => 2,
        BinaryOp::Lt | BinaryOp::Le | BinaryOp::Gt | BinaryOp::Ge => 3,
        BinaryOp::Concat => 4,
        BinaryOp::Add | BinaryOp::Sub => 5,
        BinaryOp::Mul | BinaryOp::Div | BinaryOp::Mod => 6,
        BinaryOp::Pow => 7,
    }
}

/// How tightly an expression holds together: its operator's level, 8 for a
/// unary operation and 9 for an atom.
pub open spec fn prec(e: Expr) -> nat {
    match e {
        Expr::Binary(op, _, _) => op_level(op),
        Expr::Unary(_, _) => 8,
        _ => 9,
    }
}

/// The expression respects precedence: binary operators are left associative,
/// but `^`, which is right associative; unary operators bind tighter than any
/// binary one; a cast names a type other than `void`.
pub open spec fn wf_expr(e: Expr) -> bool
    decreases e,
{
    match e {
        Expr::Binary(op, l, r) => wf_expr(*l) && wf_expr(*r) && if op == BinaryOp::Pow {
            prec(*l) >= 8 && prec(*r) >= 7
        } else {
            prec(*l) >= op_level(op) && prec(*r) > op_level(op)
        },
        Expr::Unary(_, x) => wf_expr(*x) && prec(*x) >= 8,
        Expr::Paren(x) => wf_expr(*x),
        Expr::Cast(t, x) => t != Type::Void && wf_expr(*x),
        Expr::ToStr(x) => wf_expr(*x),
        _ => true,
    }
}

/// The token of a binary operator.
pub open spec fn op_token(op: BinaryOp) -> Token {
    match op {
        BinaryOp::Pow => Tok::Caret,
        BinaryOp::Mul => Tok::Star,
        BinaryOp::Div => Tok::Slash,
        BinaryOp::Mod => Tok::Mod,
        BinaryOp::Add => Tok::Plus,
        BinaryOp::Sub => Tok::Minus,
        BinaryOp::Lt => Tok::Lt,
        BinaryOp::Le => Tok::Le,
        BinaryOp::Gt => Tok::Gt,
        BinaryOp::Ge => Tok::Ge,
        BinaryOp::Eq => Tok::EqEq,
        BinaryOp::Ne => Tok::NotEq,
        BinaryOp::And => Tok::And,
        BinaryOp::Or => Tok::Or,
        BinaryOp::Concat => Tok::Colon,
    }
}

/// The tokens an expression is written with.
pub open spec fn render_expr(e: Expr) -> Seq<Token>
    decreases e,
{
    match e {
        Expr::Int(t) => seq![Tok::Int(t)],
        Expr::Float(t) => seq![Tok::Float(t)],
        Expr::Str(t) => seq![Tok::Str(t)],
        Expr::Char(t) => seq![Tok::Char(t)],
        Expr::Bool(b) => seq![
            if b {
                Tok::True
            } else {
                Tok::False
            },
        ],
        Expr::Id(name) => seq![Tok::Id(name)],
        Expr::Paren(x) => seq![Tok::LParen] + render_expr(*x) + seq![Tok::RParen],
        Expr::Unary(op, x) => seq![
            if op == UnaryOp::Neg {
                Tok::Minus
            } else {
                Tok::Not
            },
        ] + render_expr(*x),
        Expr::Binary(op, l, r) => render_expr(*l) + seq![op_token(op)] + render_expr(*r),
        Expr::Cast(t, x) => seq![Tok::TypeName(t), Tok::LParen] + render_expr(*x) + seq![Tok::RParen],
        Expr::ToStr(x) => seq![Tok::ToStr, Tok::LParen] + render_expr(*x) + seq![Tok::RParen],
    }
}

/// The tokens a statement is written with.
pub open spec fn render_stmt(s: Stmt) -> Seq<Token>
    decreases s, 0nat,
{
    match s {
        Stmt::Decl(id, t, e) => match t {
            Some(t) => seq![Tok::Let, Tok::Id(id), Tok::Colon, Tok::TypeName(t), Tok::Assign]
                + render_expr(e) + seq![Tok::Semi],
            None => seq![Tok::Let, Tok::Id(id), Tok::Assign] + render_expr(e) + seq![Tok::Semi],
        },
        Stmt::Mutation(id, e) => seq![Tok::Id(id), Tok::Assign] + render_expr(e) + seq![Tok::Semi],
        Stmt::Print(e) => seq![Tok::Print, Tok::LParen] + render_expr(e) + seq![
            Tok::RParen,
            Tok::Semi,
        ],
        Stmt::If(c, body) => seq![Tok::If] + render_expr(c) + seq![Tok::LBrace] + render_stmts(
            body@,
            body@.len(),
        ) + seq![Tok::RBrace],
        Stmt::IfElse(c, yes, no) => seq![Tok::If] + render_expr(c) + seq![Tok::LBrace]
            + render_stmts(yes@, yes@.len()) + seq![Tok::RBrace, Tok::Else, Tok::LBrace]
            + render_stmts(no@, no@.len()) + seq![Tok::RBrace],
        Stmt::While(c, body) => seq![Tok::While] + render_expr(c) + seq![Tok::LBrace]
            + render_stmts(body@, body@.len()) + seq![Tok::RBrace],
        Stmt::Expr(e) => render_expr(e) + seq![Tok::Semi],
    }
}

/// The tokens of the first `n` statements.
pub open spec fn render_stmts(ss: Seq<Stmt>, n: nat) -> Seq<Token>
    decreases ss, n,
{
    if n == 0 || n > ss.len() {
        seq![]
    } else {
        render_stmts(ss, (n - 1) as nat) + render_stmt(ss[n - 1])
    }
}

/// Every expression of the statement respects precedence and every declared
/// type is one a program can write.
pub open spec fn wf_stmt(s: Stmt) -> bool
    decreases s, 0nat,
{
    match s {
        Stmt::Decl(_, t, e) => t != Some(Type::Void) && wf_expr(e),
        Stmt::Mutation(_, e) => wf_expr(e),
        Stmt::Print(e) => wf_expr(e),
        Stmt::If(c, body) => wf_expr(c) && wf_stmts(body@, body@.len()),
        Stmt::IfElse(c, yes, no) => wf_expr(c) && wf_stmts(yes@, yes@.len()) && wf_stmts(
            no@,
            no@.len(),
        ),
        Stmt::While(c, body) => wf_expr(c) && wf_stmts(body@, body@.len()),
        Stmt::Expr(e) => wf_expr(e),
    }
}

/// The first `n` statements are well formed.
pub open spec fn wf_stmts(ss: Seq<Stmt>, n: nat) -> bool
    decreases ss, n,
{
    if n == 0 || n > ss.len() {
        true
    } else {
        wf_stmts(ss, (n - 1) as nat) && wf_stmt(ss[n - 1])
    }
}

/// The tokens of a program. A program's last statement may be an expression
/// with no `;` after it: its tokens are then these without the final `;`.
pub open spec fn render_program(p: SyntaxTree) -> Seq<Token> {
    render_stmts(p.stmts@, p.stmts@.len())
}

/// Every statement of the program is well formed.
pub open spec fn wf_program(p: SyntaxTree) -> bool {
    wf_stmts(p.stmts@, p.stmts@.len())
}

/// How tightly a token binds when it stands between two operands: that of
/// its operator (`^` 7), and 0 for a token that is no binary operator.
pub open spec fn tok_level<S>(t: Tok<S>) -> nat {
    match t {
        Tok::And | Tok::Or => 1,
        Tok::EqEq | Tok::NotEq => 2,
        Tok::Lt | Tok::Le | Tok::Gt | Tok::Ge => 3,
        Tok::Colon => 4,
        Tok::Plus | Tok::Minus => 5,
        Tok::Star | Tok::Slash | Tok::Mod => 6,
        Tok::Caret => 7,
        _ => 0,
    }
}

/// The well-formed expression `e`, which binds at `level` or tighter, is
/// written in `vt` from `pos`, and the token after it, if any, could not
/// continue an expression of that level.
pub open spec fn expr_at(vt: Seq<TokenView>, pos: int, e: Expr, level: nat) -> bool {
    let end = pos + render_expr(e).len();
    &&& wf_expr(e)
    &&& prec(e) >= level
    &&& 0 <= pos
    &&& end <= vt.len()
    &&& vt.subrange(pos, end) == views(render_expr(e))
    &&& (end == vt.len() || tok_level(vt[end]) < level)
}

/// The well-formed statement `s` is written in `vt` from `pos`, and no `else`
/// follows it.
pub open spec fn stmt_at(vt: Seq<TokenView>, pos: int, s: Stmt) -> bool {
    let end = pos + render_stmt(s).len();
    &&& wf_stmt(s)
    &&& 0 <= pos
    &&& end <= vt.len()
    &&& vt.subrange(pos, end) == views(render_stmt(s))
    &&& (end == vt.len() || vt[end] != Tok::<Seq<char>>::Else)
}

/// The well-formed expression statement `e;` is written in `vt` from `pos`
/// to the end, without its `;`.
pub open spec fn open_stmt_at(vt: Seq<TokenView>, pos: int, e: Expr) -> bool {
    &&& wf_expr(e)
    &&& 0 <= pos
    &&& pos + render_expr(e).len() == vt.len()
    &&& vt.subrange(pos, vt.len() as int) == views(render_expr(e))
}

/// The well-formed statements `ss` are written in `vt` from `pos`, and a `}`
/// follows them.
pub open spec fn block_at(vt: Seq<TokenView>, pos: int, ss: Seq<Stmt>) -> bool {
    let end = pos + render_stmts(ss, ss.len()).len();
    &&& wf_stmts(ss, ss.len())
    &&& 0 <= pos
    &&& end < vt.len()
    &&& vt.subrange(pos, end) == views(render_stmts(ss, ss.len()))
    &&& vt[end] == Tok::<Seq<char>>::RBrace
}

/// The well-formed program `p` is written as the tokens `vt`; where its last
/// statement is an expression, its final `;` may be left out.
pub open spec fn program_at(vt: Seq<TokenView>, p: SyntaxTree) -> bool {
    &&& wf_program(p)
    &&& (views(render_program(p)) == vt || (p.stmts@.len() > 0 && p.stmts@.last() is Expr
        && views(render_program(p)) == vt.push(Tok::Semi)))
}

/// The two expressions have the same shape and the same texts.
pub open spec fn expr_eqv(a: Expr, b: Expr) -> bool
    decreases a,
{
    match a {
        Expr::Int(x) => b matches Expr::Int(y) && x@ == y@,
        Expr::Float(x) => b matches Expr::Float(y) && x@ == y@,
        Expr::Str(x) => b matches Expr::Str(y) && x@ == y@,
        Expr::Char(x) => b matches Expr::Char(y) && x@ == y@,
        Expr::Id(x) => b matches Expr::Id(y) && x@ == y@,
        Expr::Bool(x) => b matches Expr::Bool(y) && x == y,
        Expr::Paren(x) => match b {
            Expr::Paren(y) => expr_eqv(*x, *y),
            _ => false,
        },
        Expr::Unary(o, x) => match b {
            Expr::Unary(p, y) => o == p && expr_eqv(*x, *y),
            _ => false,
        },
        Expr::Binary(o, l, r) => match b {
            Expr::Binary(p, m, q) => o == p && expr_eqv(*l, *m) && expr_eqv(*r, *q),
            _ => false,
        },
        Expr::Cast(t, x) => match b {
            Expr::Cast(u, y) => t == u && expr_eqv(*x, *y),
            _ => false,
        },
        Expr::ToStr(x) => match b {
            Expr::ToStr(y) => expr_eqv(*x, *y),
            _ => false,
        },
    }
}

/// The two statements have the same shape and the same texts.
pub open spec fn stmt_eqv(a: Stmt, b: Stmt) -> bool
    decreases a, 0nat,
{
    match a {
        Stmt::Decl(id, t, e) => match b {
            Stmt::Decl(id2, t2, e2) => id@ == id2@ && t == t2 && expr_eqv(e, e2),
            _ => false,
        },
        Stmt::Mutation(id, e) => match b {
            Stmt::Mutation(id2, e2) => id@ == id2@ && expr_eqv(e, e2),
            _ => false,
        },
        Stmt::Print(e) => match b {
            Stmt::Print(e2) => expr_eqv(e, e2),
            _ => false,
        },
        Stmt::If(c, body) => match b {
            Stmt::If(c2, body2) => expr_eqv(c, c2) && body@.len() == body2@.len() && stmts_eqv(
                body@,
                body2@,
                body@.len(),
            ),
            _ => false,
        },
        Stmt::IfElse(c, yes, no) => match b {
            Stmt::IfElse(c2, yes2, no2) => expr_eqv(c, c2) && yes@.len() == yes2@.len()
                && stmts_eqv(yes@, yes2@, yes@.len()) && no@.len() == no2@.len() && stmts_eqv(
                no@,
                no2@,
                no@.len(),
            ),
            _ => false,
        },
        Stmt::While(c, body) => match b {
            Stmt::While(c2, body2) => expr_eqv(c, c2) && body@.len() == body2@.len()
                && stmts_eqv(body@, body2@, body@.len()),
            _ => false,
        },
        Stmt::Expr(e) => match b {
            Stmt::Expr(e2) => expr_eqv(e, e2),
            _ => false,
        },
    }
}

/// The first `n` statements of the two sequences are pairwise equivalent.
pub open spec fn stmts_eqv(a: Seq<Stmt>, b: Seq<Stmt>, n: nat) -> bool
    decreases a, n,
{
    if n == 0 {
        true
    } else if n > a.len() || n > b.len() {
        false
    } else {
        stmts_eqv(a, b, (n - 1) as nat) && stmt_eqv(a[n - 1], b[n - 1])
    }
}

/// The two programs have the same statements, up to equivalence.
pub open spec fn program_eqv(p: SyntaxTree, q: SyntaxTree) -> bool {
    p.stmts@.len() == q.stmts@.len() && stmts_eqv(p.stmts@, q.stmts@, p.stmts@.len())
}

/// A parse that ended at `end` with an expression equivalent to `e`.
pub open spec fn parsed_as(r: Result<(Expr, usize), ParseError>, e: Expr, end: int) -> bool {
    r matches Ok((x, i)) && i == end && expr_eqv(x, e)
}

/// A block parse that ended at `end` with statements equivalent to `b`.
pub open spec fn block_parsed_as(r: Result<(Vec<Stmt>, usize), ParseError>, b: Seq<Stmt>, end: int) -> bool {
    r matches Ok((ss, i)) && i == end && ss@.len() == b.len() && stmts_eqv(ss@, b, b.len())
}

/// A statement parse that ended at `end`, with its `;` left out or not, with
/// a statement equivalent to `s`.
pub open spec fn stmt_parsed_as(
    r: Result<(Stmt, usize, bool), ParseError>,
    s: Stmt,
    end: int,
    omitted: bool,
) -> bool {
    r matches Ok((x, i, o)) && i == end && o == omitted && stmt_eqv(x, s)
}

/// Number of operators of level `level` down the left edge of `e`.
pub open spec fn spine_depth(e: Expr, level: nat) -> nat
    decreases e,
{
    match e {
        Expr::Binary(op, l, _) => if op_level(op) == level {
            spine_depth(*l, level) + 1
        } else {
            0
        },
        _ => 0,
    }
}

/// The expression `k` steps down the left edge of `e`.
pub open spec fn spine_down(e: Expr, k: nat) -> Expr
    decreases k,
{
    if k == 0 {
        e
    } else {
        match e {
            Expr::Binary(_, l, _) => spine_down(*l, (k - 1) as nat),
            _ => e,
        }
    }
}

proof fn lemma_render_stmts_push(ss: Seq<Stmt>, s: Stmt)
    ensures
        render_stmts(ss.push(s), ss.len() + 1) == render_stmts(ss, ss.len()) + render_stmt(s),
        wf_stmts(ss.push(s), ss.len() + 1) == (wf_stmts(ss, ss.len()) && wf_stmt(s)),
{
    lemma_render_stmts_prefix(ss, s, ss.len());
}

proof fn lemma_render_stmts_prefix(ss: Seq<Stmt>, s: Stmt, n: nat)
    requires
        n <= ss.len(),
    ensures
        render_stmts(ss.push(s), n) == render_stmts(ss, n),
        wf_stmts(ss.push(s), n) == wf_stmts(ss, n),
    decreases n,
{
    if n > 0 {
        lemma_render_stmts_prefix(ss, s, (n - 1) as nat);
        assert(ss.push(s)[n - 1] == ss[n - 1]);
    }
}

/// The binary operator of level `level` that `t` denotes, if any (levels 1 to 6).
pub open spec fn level_op(t: Token, level: nat) -> Option<BinaryOp> {
    match t {
        Tok::And => if level == 1 { Some(BinaryOp::And) } else { None },
        Tok::Or => if level == 1 { Some(BinaryOp::Or) } else { None },
        Tok::EqEq => if level == 2 { Some(BinaryOp::Eq) } else { None },
        Tok::NotEq => if level == 2 { Some(BinaryOp::Ne) } else { None },
        Tok::Lt => if level == 3 { Some(BinaryOp::Lt) } else { None },
        Tok::Le => if level == 3 { Some(BinaryOp::Le) } else { None },
        Tok::Gt => if level == 3 { Some(BinaryOp::Gt) } else { None },
        Tok::Ge => if level == 3 { Some(BinaryOp::Ge) } else { None },
        Tok::Colon => if level == 4 { Some(BinaryOp::Concat) } else { None },
        Tok::Plus => if level == 5 { Some(BinaryOp::Add) } else { None },
        Tok::Minus => if level == 5 { Some(BinaryOp::Sub) } else { None },
        Tok::Star => if level == 6 { Some(BinaryOp::Mul) } else { None },
        Tok::Slash => if level == 6 { Some(BinaryOp::Div) } else { None },
        Tok::Mod => if level == 6 { Some(BinaryOp::Mod) } else { None },
        _ => None,
    }
}

fn level_op_exec(t: &Token, level: u8) -> (r: Option<BinaryOp>)
    ensures
        r == level_op(*t, level as nat),
        r matches Some(op) ==> op_level(op) == level && op_token(op) == *t,
        1 <= level <= 6 ==> (r is Some <==> tok_level(t@) == level as nat),
{
    match t {
        Tok::And => if level == 1 { Some(BinaryOp::And) } else { None },
        Tok::Or => if level == 1 { Some(BinaryOp::Or) } else { None },
        Tok::EqEq => if level == 2 { Some(BinaryOp::Eq) } else { None },
        Tok::NotEq => if level == 2 { Some(BinaryOp::Ne) } else { None },
        Tok::Lt => if level == 3 { Some(BinaryOp::Lt) } else { None },
        Tok::Le => if level == 3 { Some(BinaryOp::Le) } else { None },
        Tok::Gt => if level == 3 { Some(BinaryOp::Gt) } else { None },
        Tok::Ge => if level == 3 { Some(BinaryOp::Ge) } else { None },
        Tok::Colon => if level == 4 { Some(BinaryOp::Concat) } else { None },
        Tok::Plus => if level == 5 { Some(BinaryOp::Add) } else { None },
        Tok::Minus => if level == 5 { Some(BinaryOp::Sub) } else { None },
        Tok::Star => if level == 6 { Some(BinaryOp::Mul) } else { None },
        Tok::Slash => if level == 6 { Some(BinaryOp::Div) } else { None },
        Tok::Mod => if level == 6 { Some(BinaryOp::Mod) } else { None },
        _ => None,
    }
}

/// The parse of an expression that starts at `pos` and ends before `end`.
pub open spec fn parsed_expr(toks: Seq<Token>, pos: int, e: Expr, end: int) -> bool {
    &&& pos < end <= toks.len()
    &&& toks.subrange(pos, end) == render_expr(e)
    &&& wf_expr(e)
}

fn is_rparen(toks: &Vec<Token>, i: usize) -> (r: bool)
    ensures
        r == (i < toks@.len() && toks@[i as int] == Tok::<String>::RParen),
{
    i < toks.len() && match &toks[i] {
        Tok::RParen => true,
        _ => false,
    }
}

fn error_at(toks: &Vec<Token>, i: usize) -> (r: ParseError)
    ensures
        r == if i < toks@.len() {
            ParseError::UnexpectedToken(i)
        } else {
            ParseError::UnexpectedEnd
        },
        parse_failure(r, toks@.len() as int),
{
    if i < toks.len() {
        ParseError::UnexpectedToken(i)
    } else {
        ParseError::UnexpectedEnd
    }
}

/// Parses a parenthesised expression whose `(` is at `open`.
fn parse_parenthesised(toks: &Vec<Token>, open: usize) -> (r: Result<(Expr, usize), ParseError>)
    requires
        open < toks@.len(),
        toks@[open as int] == Tok::<String>::LParen,
    ensures
        r matches Err(e) ==> parse_failure(e, toks@.len() as int),
        r matches Ok((e, end)) ==> open + 2 < end <= toks@.len() && toks@.subrange(
            open as int,
            end as int,
        ) == seq![Tok::LParen] + render_expr(e) + seq![Tok::RParen] && wf_expr(e),
        forall|x: Expr| #[trigger]
            expr_at(views(toks@), open + 1, x, 1) && open + 1 + render_expr(x).len() < toks@.len()
                && views(toks@)[open + 1 + render_expr(x).len()] == Tok::<Seq<char>>::RParen
                ==> parsed_as(r, x, open + render_expr(x).len() + 2),
    decreases toks@.len() - open, 0nat,
{
    let n = toks.len();
    let (e, end) = parse_expr(toks, open + 1)?;
    if is_rparen(toks, end) {
        assert(toks@.subrange(open as int, end + 1) =~= seq![Tok::LParen] + toks@.subrange(
            open + 1,
            end as int,
        ) + seq![Tok::RParen]);
        Ok((e, end + 1))
    } else {
        Err(error_at(toks, end))
    }
}

/// Parses an atom: a literal, a name, `( e )`, `type( e )` or `to_str( e )`.
pub fn parse_atom(toks: &Vec<Token>, pos: usize) -> (r: Result<(Expr, usize), ParseError>)
    ensures
        r matches Err(e) ==> parse_failure(e, toks@.len() as int),
        r matches Ok((e, end)) ==> parsed_expr(toks@, pos as int, e, end as int) && prec(e) == 9,
        forall|e: Expr| #[trigger]
            expr_at(views(toks@), pos as int, e, 9) ==> parsed_as(r, e, pos + render_expr(e).len()),
    decreases toks@.len() - pos, 1nat,
{
    let ghost vt = views(toks@);
    if pos >= toks.len() {
        proof {
            assert forall|e: Expr| #[trigger] expr_at(vt, pos as int, e, 9) implies false by {
                lemma_atom_at(vt, pos as int, e);
            }
        }
        return Err(ParseError::UnexpectedEnd);
    }
    let r = match &toks[pos] {
        Tok::Int(t) => Ok((Expr::Int(t.clone()), pos + 1)),
        Tok::Float(t) => Ok((Expr::Float(t.clone()), pos + 1)),
        Tok::Str(t) => Ok((Expr::Str(t.clone()), pos + 1)),
        Tok::Char(t) => Ok((Expr::Char(t.clone()), pos + 1)),
        Tok::Id(t) => Ok((Expr::Id(t.clone()), pos + 1)),
        Tok::True => Ok((Expr::Bool(true), pos + 1)),
        Tok::False => Ok((Expr::Bool(false), pos + 1)),
        Tok::LParen => {
            proof {
                assert forall|e: Expr| #[trigger] expr_at(vt, pos as int, e, 9) implies {
                    &&& e is Paren
                    &&& expr_at(vt, pos + 1, operand_of(e), 1)
                    &&& pos + 1 + render_expr(operand_of(e)).len() < vt.len()
                    &&& vt[pos + 1 + render_expr(operand_of(e)).len()] == Tok::<Seq<char>>::RParen
                } by {
                    lemma_atom_at(vt, pos as int, e);
                }
            }
            let (e, end) = parse_parenthesised(toks, pos)?;
            let c = Expr::Paren(Box::new(e));
            assert(toks@.subrange(pos as int, end as int) =~= render_expr(c));
            Ok((c, end))
        },
        Tok::TypeName(t) => {
            let t = *t;
            if t != Type::Void && pos + 1 < toks.len() && match &toks[pos + 1] {
                Tok::LParen => true,
                _ => false,
            } {
                proof {
                    assert forall|e: Expr| #[trigger] expr_at(vt, pos as int, e, 9) implies {
                        &&& e is Cast
                        &&& expr_at(vt, pos + 2, operand_of(e), 1)
                        &&& pos + 2 + render_expr(operand_of(e)).len() < vt.len()
                        &&& vt[pos + 2 + render_expr(operand_of(e)).len()]
                            == Tok::<Seq<char>>::RParen
                    } by {
                        lemma_atom_at(vt, pos as int, e);
                    }
                }
                let (e, end) = parse_parenthesised(toks, pos + 1)?;
                assert(toks@.subrange(pos as int, end as int) =~= seq![toks@[pos as int]]
                    + toks@.subrange(pos + 1, end as int));
                let c = Expr::Cast(t, Box::new(e));
                assert(toks@.subrange(pos as int, end as int) =~= render_expr(c));
                Ok((c, end))
            } else {
                proof {
                    assert forall|e: Expr| #[trigger] expr_at(vt, pos as int, e, 9) implies false by {
                        lemma_atom_at(vt, pos as int, e);
                    }
                }
                Err(error_at(toks, pos + 1))
            }
        },
        Tok::ToStr => {
            if pos + 1 < toks.len() && match &toks[pos + 1] {
                Tok::LParen => true,
                _ => false,
            } {
                proof {
                    assert forall|e: Expr| #[trigger] expr_at(vt, pos as int, e, 9) implies {
                        &&& e is ToStr
                        &&& expr_at(vt, pos + 2, operand_of(e), 1)
                        &&& pos + 2 + render_expr(operand_of(e)).len() < vt.len()
                        &&& vt[pos + 2 + render_expr(operand_of(e)).len()]
                            == Tok::<Seq<char>>::RParen
                    } by {
                        lemma_atom_at(vt, pos as int, e);
                    }
                }
                let (e, end) = parse_parenthesised(toks, pos + 1)?;
                assert(toks@.subrange(pos as int, end as int) =~= seq![toks@[pos as int]]
                    + toks@.subrange(pos + 1, end as int));
                let c = Expr::ToStr(Box::new(e));
                assert(toks@.subrange(pos as int, end as int) =~= render_expr(c));
                Ok((c, end))
            } else {
                proof {
                    assert forall|e: Expr| #[trigger] expr_at(vt, pos as int, e, 9) implies false by {
                        lemma_atom_at(vt, pos as int, e);
                    }
                }
                Err(error_at(toks, pos + 1))
            }
        },
        _ => Err(ParseError::UnexpectedToken(pos)),
    };
    proof {
        assert(toks@.subrange(pos as int, pos + 1) =~= seq![toks@[pos as int]]);
        assert forall|e: Expr| #[trigger] expr_at(vt, pos as int, e, 9) implies parsed_as(
            r,
            e,
            pos + render_expr(e).len(),
        ) by {
            assert(vt[pos as int] == toks@[pos as int]@);
            lemma_atom_at(vt, pos as int, e);
        }
    }
    r
}

/// Parses a unary operation or an atom.
pub fn parse_unary(toks: &Vec<Token>, pos: usize) -> (r: Result<(Expr, usize), ParseError>)
    ensures
        r matches Err(e) ==> parse_failure(e, toks@.len() as int),
        r matches Ok((e, end)) ==> parsed_expr(toks@, pos as int, e, end as int) && prec(e) >= 8,
        forall|e: Expr| #[trigger]
            expr_at(views(toks@), pos as int, e, 8) ==> parsed_as(r, e, pos + render_expr(e).len()),
    decreases toks@.len() - pos, 2nat,
{
    let ghost vt = views(toks@);
    if pos < toks.len() {
        let op = match &toks[pos] {
            Tok::Minus => Some(UnaryOp::Neg),
            Tok::Not => Some(UnaryOp::Not),
            _ => None,
        };
        match op {
            Some(op) => {
                proof {
                    assert forall|e: Expr| #[trigger] expr_at(vt, pos as int, e, 8) implies e is Unary
                        && e->Unary_0 == op && expr_at(vt, pos + 1, operand_of(e), 8)
                        && render_expr(e).len() == render_expr(operand_of(e)).len() + 1 by {
                        assert(vt[pos as int] == toks@[pos as int]@);
                        lemma_unary_at(vt, pos as int, e);
                    }
                }
                let (x, end) = parse_unary(toks, pos + 1)?;
                assert(toks@.subrange(pos as int, end as int) =~= seq![toks@[pos as int]]
                    + toks@.subrange(pos + 1, end as int));
                return Ok((Expr::Unary(op, Box::new(x)), end));
            },
            None => {},
        }
    }
    proof {
        assert forall|e: Expr| #[trigger] expr_at(vt, pos as int, e, 8) implies expr_at(
            vt,
            pos as int,
            e,
            9,
        ) by {
            lemma_unary_at(vt, pos as int, e);
        }
    }
    parse_atom(toks, pos)
}

/// Parses a power, which associates to the right.
pub fn parse_pow(toks: &Vec<Token>, pos: usize) -> (r: Result<(Expr, usize), ParseError>)
    ensures
        r matches Err(e) ==> parse_failure(e, toks@.len() as int),
        r matches Ok((e, end)) ==> parsed_expr(toks@, pos as int, e, end as int) && prec(e) >= 7,
        forall|e: Expr| #[trigger]
            expr_at(views(toks@), pos as int, e, 7) ==> parsed_as(r, e, pos + render_expr(e).len()),
    decreases toks@.len() - pos, 3nat,
{
    let ghost vt = views(toks@);
    proof {
        assert forall|e: Expr| #[trigger] expr_at(vt, pos as int, e, 7) implies expr_at(
            vt,
            pos as int,
            if e is Binary {
                left_of(e)
            } else {
                e
            },
            8,
        ) by {
            lemma_pow_at(vt, pos as int, e);
        }
    }
    let (base, mid) = parse_unary(toks, pos)?;
    if mid < toks.len() && match &toks[mid] {
        Tok::Caret => true,
        _ => false,
    } {
        proof {
            assert forall|e: Expr| #[trigger] expr_at(vt, pos as int, e, 7) implies e is Binary
                && expr_at(vt, mid + 1, right_of(e), 7) && render_expr(e).len() == mid - pos + 1
                + render_expr(right_of(e)).len() by {
                lemma_pow_at(vt, pos as int, e);
            }
        }
        let (exp, end) = parse_pow(toks, mid + 1)?;
        assert(toks@.subrange(pos as int, end as int) =~= toks@.subrange(pos as int, mid as int)
            + seq![toks@[mid as int]] + toks@.subrange(mid + 1, end as int));
        Ok((Expr::Binary(BinaryOp::Pow, Box::new(base), Box::new(exp)), end))
    } else {
        proof {
            assert forall|e: Expr| #[trigger] expr_at(vt, pos as int, e, 7) implies !(e is Binary)
                by {
                lemma_pow_at(vt, pos as int, e);
            }
        }
        Ok((base, mid))
    }
}

/// Parses an operand of the binary operators of level `level`.
fn parse_operand(toks: &Vec<Token>, pos: usize, level: u8) -> (r: Result<(Expr, usize), ParseError>)
    requires
        1 <= level <= 6,
    ensures
        r matches Err(e) ==> parse_failure(e, toks@.len() as int),
        r matches Ok((e, end)) ==> parsed_expr(toks@, pos as int, e, end as int) && prec(e)
            > level,
        forall|e: Expr| #[trigger]
            expr_at(views(toks@), pos as int, e, (level + 1) as nat) ==> parsed_as(
                r,
                e,
                pos + render_expr(e).len(),
            ),
    decreases toks@.len() - pos, 10 - level, 1nat,
{
    if level == 6 {
        parse_pow(toks, pos)
    } else {
        parse_level(toks, pos, level + 1)
    }
}

/// Parses a chain of binary operations of level `level` or tighter.
pub fn parse_level(toks: &Vec<Token>, pos: usize, level: u8) -> (r: Result<(Expr, usize), ParseError>)
    requires
        1 <= level <= 6,
    ensures
        r matches Err(e) ==> parse_failure(e, toks@.len() as int),
        r matches Ok((e, end)) ==> parsed_expr(toks@, pos as int, e, end as int) && prec(e)
            >= level,
        forall|e: Expr| #[trigger]
            expr_at(views(toks@), pos as int, e, level as nat) ==> parsed_as(
                r,
                e,
                pos + render_expr(e).len(),
            ),
    decreases toks@.len() - pos, 10 - level, 2nat,
{
    let ghost vt = views(toks@);
    let ghost lv = level as nat;
    proof {
        assert forall|e: Expr| #[trigger] expr_at(vt, pos as int, e, lv) implies expr_at(
            vt,
            pos as int,
            spine_down(e, spine_depth(e, lv)),
            lv + 1,
        ) by {
            lemma_spine_base(vt, pos as int, e, lv);
        }
    }
    let (first, mut cur) = parse_operand(toks, pos, level)?;
    let mut acc = first;
    let ghost mut k: nat = 0;
    loop
        invariant
            1 <= level <= 6,
            lv == level as nat,
            vt == views(toks@),
            parsed_expr(toks@, pos as int, acc, cur as int),
            prec(acc) >= level,
            forall|e: Expr| #[trigger]
                expr_at(vt, pos as int, e, lv) ==> k <= spine_depth(e, lv) && cur == pos
                    + render_expr(spine_down(e, (spine_depth(e, lv) - k) as nat)).len()
                    && expr_eqv(acc, spine_down(e, (spine_depth(e, lv) - k) as nat)),
        ensures
            parsed_expr(toks@, pos as int, acc, cur as int),
            prec(acc) >= level,
            forall|e: Expr| #[trigger]
                expr_at(vt, pos as int, e, lv) ==> cur == pos + render_expr(e).len()
                    && expr_eqv(acc, e),
        decreases toks@.len() - cur,
    {
        if cur >= toks.len() {
            proof {
                assert forall|e: Expr| #[trigger] expr_at(vt, pos as int, e, lv) implies cur == pos
                    + render_expr(e).len() && expr_eqv(acc, e) by {
                    if k < spine_depth(e, lv) {
                        lemma_spine_step(vt, pos as int, e, lv, k);
                    }
                }
            }
            break;
        }
        let op = match level_op_exec(&toks[cur], level) {
            Some(op) => op,
            None => {
                proof {
                    assert forall|e: Expr| #[trigger] expr_at(vt, pos as int, e, lv) implies cur
                        == pos + render_expr(e).len() && expr_eqv(acc, e) by {
                        if k < spine_depth(e, lv) {
                            lemma_spine_step(vt, pos as int, e, lv, k);
                        }
                    }
                }
                break;
            },
        };
        proof {
            assert forall|e: Expr| #[trigger] expr_at(vt, pos as int, e, lv) implies {
                let j = (spine_depth(e, lv) - k - 1) as nat;
                &&& k < spine_depth(e, lv)
                &&& op_of(spine_down(e, j)) == op
                &&& spine_down(e, j) == Expr::Binary(
                    op,
                    Box::new(spine_down(e, j + 1)),
                    Box::new(right_of(spine_down(e, j))),
                )
                &&& expr_at(vt, cur + 1, right_of(spine_down(e, j)), lv + 1)
                &&& render_expr(spine_down(e, j)).len() == cur - pos + 1 + render_expr(
                    right_of(spine_down(e, j)),
                ).len()
            } by {
                if k == spine_depth(e, lv) {
                    lemma_op_token(op, op);
                } else {
                    lemma_spine_step(vt, pos as int, e, lv, k);
                }
            }
        }
        let (rhs, end) = parse_operand(toks, cur + 1, level)?;
        assert(toks@.subrange(pos as int, end as int) =~= toks@.subrange(pos as int, cur as int)
            + seq![toks@[cur as int]] + toks@.subrange(cur + 1, end as int));
        acc = Expr::Binary(op, Box::new(acc), Box::new(rhs));
        cur = end;
        proof {
            k = k + 1;
        }
    }
    Ok((acc, cur))
}

/// Parses an expression.
pub fn parse_expr(toks: &Vec<Token>, pos: usize) -> (r: Result<(Expr, usize), ParseError>)
    ensures
        r matches Err(e) ==> parse_failure(e, toks@.len() as int),
        r matches Ok((e, end)) ==> parsed_expr(toks@, pos as int, e, end as int),
        forall|e: Expr| #[trigger]
            expr_at(views(toks@), pos as int, e, 1) ==> parsed_as(r, e, pos + render_expr(e).len()),
    decreases toks@.len() - pos, 10nat,
{
    parse_level(toks, pos, 1)
}

fn token_is_semi(toks: &Vec<Token>, i: usize) -> (r: bool)
    ensures
        r == (i < toks@.len() && toks@[i as int] == Tok::<String>::Semi),
{
    i < toks.len() && match &toks[i] {
        Tok::Semi => true,
        _ => false,
    }
}

fn token_is_lbrace(toks: &Vec<Token>, i: usize) -> (r: bool)
    ensures
        r == (i < toks@.len() && toks@[i as int] == Tok::<String>::LBrace),
{
    i < toks.len() && match &toks[i] {
        Tok::LBrace => true,
        _ => false,
    }
}

fn token_is_rbrace(toks: &Vec<Token>, i: usize) -> (r: bool)
    ensures
        r == (i < toks@.len() && toks@[i as int] == Tok::<String>::RBrace),
{
    i < toks.len() && match &toks[i] {
        Tok::RBrace => true,
        _ => false,
    }
}

fn token_is(toks: &Vec<Token>, i: usize, want: &Token) -> (r: bool)
    requires
        *want == Tok::<String>::Else || *want == Tok::<String>::Colon || *want
            == Tok::<String>::Assign || *want == Tok::<String>::LParen || *want
            == Tok::<String>::RParen,
    ensures
        r == (i < toks@.len() && toks@[i as int] == *want),
{
    if i >= toks.len() {
        return false;
    }
    match (&toks[i], want) {
        (Tok::Else, Tok::Else) => true,
        (Tok::Colon, Tok::Colon) => true,
        (Tok::Assign, Tok::Assign) => true,
        (Tok::LParen, Tok::LParen) => true,
        (Tok::RParen, Tok::RParen) => true,
        _ => false,
    }
}

/// Parses a block's statements from `pos` up to its `}`, which is at the index
/// returned and is not consumed.
pub fn parse_block(toks: &Vec<Token>, pos: usize) -> (r: Result<(Vec<Stmt>, usize), ParseError>)
    requires
        pos <= toks@.len(),
    ensures
        r matches Err(e) ==> parse_failure(e, toks@.len() as int),
        r matches Ok((ss, end)) ==> {
            &&& pos <= end < toks@.len()
            &&& toks@[end as int] == Tok::<String>::RBrace
            &&& toks@.subrange(pos as int, end as int) == render_stmts(ss@, ss@.len())
            &&& wf_stmts(ss@, ss@.len())
        },
        forall|b: Seq<Stmt>| #[trigger]
            block_at(views(toks@), pos as int, b) ==> block_parsed_as(
                r,
                b,
                pos + render_stmts(b, b.len()).len(),
            ),
    decreases toks@.len() - pos, 3nat,
{
    let ghost vt = views(toks@);
    let mut ss: Vec<Stmt> = Vec::new();
    let mut cur = pos;
    assert(toks@.subrange(pos as int, pos as int) =~= Seq::<Token>::empty());
    while !token_is_rbrace(toks, cur)
        invariant
            pos <= cur <= toks@.len(),
            vt == views(toks@),
            toks@.subrange(pos as int, cur as int) == render_stmts(ss@, ss@.len()),
            wf_stmts(ss@, ss@.len()),
            forall|b: Seq<Stmt>| #[trigger]
                block_at(vt, pos as int, b) ==> ss@.len() <= b.len() && cur == pos
                    + render_stmts(b, ss@.len()).len() && stmts_eqv(ss@, b, ss@.len()),
        decreases toks@.len() - cur,
    {
        proof {
            assert forall|b: Seq<Stmt>| #[trigger] block_at(vt, pos as int, b) implies {
                &&& ss@.len() < b.len()
                &&& stmt_at(vt, cur as int, b[ss@.len() as int])
                &&& render_stmts(b, ss@.len() + 1).len() == cur - pos + render_stmt(
                    b[ss@.len() as int],
                ).len()
            } by {
                lemma_block_at(vt, pos as int, b, ss@.len());
            }
        }
        if cur >= toks.len() {
            return Err(ParseError::UnexpectedEnd);
        }
        let (s, end, omitted) = parse_stmt(toks, cur, false)?;
        proof {
            assert forall|b: Seq<Stmt>| #[trigger] block_at(vt, pos as int, b) implies stmts_eqv(
                ss@.push(s),
                b,
                ss@.len() + 1,
            ) by {
                lemma_stmts_eqv_push(ss@, s, b, ss@.len());
            }
            lemma_render_stmts_push(ss@, s);
            assert(toks@.subrange(pos as int, end as int) =~= toks@.subrange(pos as int, cur as int)
                + toks@.subrange(cur as int, end as int));
        }
        ss.push(s);
        cur = end;
    }
    proof {
        assert forall|b: Seq<Stmt>| #[trigger] block_at(vt, pos as int, b) implies cur == pos
            + render_stmts(b, b.len()).len() && ss@.len() == b.len() by {
            lemma_block_at(vt, pos as int, b, ss@.len());
        }
    }
    Ok((ss, cur))
}

/// Parses `{ stmts }` whose `{` is at `open`; returns the statements and the
/// index after the `}`.
fn parse_braced(toks: &Vec<Token>, open: usize) -> (r: Result<(Vec<Stmt>, usize), ParseError>)
    requires
        open < toks@.len(),
        toks@[open as int] == Tok::<String>::LBrace,
    ensures
        r matches Err(e) ==> parse_failure(e, toks@.len() as int),
        r matches Ok((ss, end)) ==> {
            &&& open < end <= toks@.len()
            &&& toks@.subrange(open as int, end as int) == seq![Tok::LBrace] + render_stmts(
                ss@,
                ss@.len(),
            ) + seq![Tok::RBrace]
            &&& wf_stmts(ss@, ss@.len())
        },
        forall|b: Seq<Stmt>| #[trigger]
            block_at(views(toks@), open + 1, b) ==> block_parsed_as(
                r,
                b,
                open + render_stmts(b, b.len()).len() + 2,
            ),
    decreases toks@.len() - open, 4nat,
{
    let n = toks.len();
    let (ss, close) = parse_block(toks, open + 1)?;
    assert(toks@.subrange(open as int, close + 1) =~= seq![toks@[open as int]] + toks@.subrange(
        open + 1,
        close as int,
    ) + seq![toks@[close as int]]);
    Ok((ss, close + 1))
}

/// What `parse_stmt` promises of a statement parsed from `pos` to `end`.
pub open spec fn parsed_stmt(toks: Seq<Token>, pos: int, top: bool, s: Stmt, end: int, omitted: bool) -> bool {
    &&& pos < end <= toks.len()
    &&& wf_stmt(s)
    &&& if omitted {
        &&& top
        &&& end == toks.len()
        &&& s is Expr
        &&& toks.subrange(pos, end).push(Tok::Semi) == render_stmt(s)
    } else {
        toks.subrange(pos, end) == render_stmt(s)
    }
}

/// Parses one statement. At the top level (`top`), an expression that ends the
/// tokens may go without its `;`, and the flag returned says so.
pub fn parse_stmt(toks: &Vec<Token>, pos: usize, top: bool) -> (r: Result<
    (Stmt, usize, bool),
    ParseError,
>)
    requires
        pos < toks@.len(),
    ensures
        r matches Err(e) ==> parse_failure(e, toks@.len() as int),
        r matches Ok((s, end, omitted)) ==> parsed_stmt(toks@, pos as int, top, s, end as int, omitted),
        forall|s: Stmt| #[trigger]
            stmt_at(views(toks@), pos as int, s) ==> stmt_parsed_as(
                r,
                s,
                pos + render_stmt(s).len(),
                false,
            ),
        forall|e: Expr| #[trigger]
            open_stmt_at(views(toks@), pos as int, e) ==> top ==> stmt_parsed_as(
                r,
                Stmt::Expr(e),
                toks@.len() as int,
                true,
            ),
    decreases toks@.len() - pos, 2nat,
{
    let ghost vt = views(toks@);
    proof {
        assert forall|s: Stmt| #[trigger] stmt_at(vt, pos as int, s) implies {
            &&& vt[pos as int] is Let ==> s is Decl
            &&& vt[pos as int] is Print ==> s is Print
            &&& vt[pos as int] is If ==> s is If || s is IfElse
            &&& vt[pos as int] is While ==> s is While
            &&& vt[pos as int] is Id ==> (s is Mutation <==> vt[pos + 1]
                == Tok::<Seq<char>>::Assign) && (s is Mutation || s is Expr)
            &&& !(vt[pos as int] is Let || vt[pos as int] is Print || vt[pos as int] is If
                || vt[pos as int] is While || vt[pos as int] is Id) ==> s is Expr
            &&& pos + 1 < vt.len()
        } by {
            assert(vt[pos as int] == toks@[pos as int]@);
            lemma_stmt_at(vt, pos as int, s);
        }
        assert forall|e: Expr| #[trigger] open_stmt_at(vt, pos as int, e) implies {
            &&& starts_expr(vt[pos as int])
            &&& pos + 1 < vt.len() ==> vt[pos + 1] != Tok::<Seq<char>>::Assign
        } by {
            lemma_open_stmt_at(vt, pos as int, e);
        }
    }
    let n = toks.len();
    match &toks[pos] {
        Tok::Let => parse_decl(toks, pos),
        Tok::Print => parse_print(toks, pos),
        Tok::If => parse_if(toks, pos),
        Tok::While => parse_while(toks, pos),
        Tok::Id(_) => if token_is(toks, pos + 1, &Tok::Assign) {
            parse_mutation(toks, pos)
        } else {
            parse_expr_stmt(toks, pos, top)
        },
        _ => parse_expr_stmt(toks, pos, top),
    }
}

fn parse_decl(toks: &Vec<Token>, pos: usize) -> (r: Result<(Stmt, usize, bool), ParseError>)
    requires
        pos < toks@.len(),
        toks@[pos as int] == Tok::<String>::Let,
    ensures
        r matches Err(e) ==> parse_failure(e, toks@.len() as int),
        r matches Ok((s, end, omitted)) ==> parsed_stmt(toks@, pos as int, false, s, end as int, omitted),
        forall|s: Stmt| #[trigger]
            stmt_at(views(toks@), pos as int, s) ==> stmt_parsed_as(
                r,
                s,
                pos + render_stmt(s).len(),
                false,
            ),
{
    let ghost vt = views(toks@);
    proof {
        assert forall|s: Stmt| #[trigger] stmt_at(vt, pos as int, s) implies {
            let e = s->Decl_2;
            let n = render_expr(e).len();
            &&& s is Decl
            &&& pos + 3 + n < vt.len()
            &&& vt[pos + 1] == Tok::<Seq<char>>::Id(s->Decl_0@)
            &&& s->Decl_1 is Some ==> {
                &&& pos + 5 + n < vt.len()
                &&& vt[pos + 2] == Tok::<Seq<char>>::Colon
                &&& vt[pos + 3] == Tok::<Seq<char>>::TypeName(s->Decl_1->Some_0)
                &&& s->Decl_1->Some_0 != Type::Void
                &&& vt[pos + 4] == Tok::<Seq<char>>::Assign
                &&& expr_at(vt, pos + 5, e, 1)
                &&& vt[pos + 5 + n] == Tok::<Seq<char>>::Semi
                &&& render_stmt(s).len() == n + 6
            }
            &&& s->Decl_1 is None ==> {
                &&& vt[pos + 2] == Tok::<Seq<char>>::Assign
                &&& expr_at(vt, pos + 3, e, 1)
                &&& vt[pos + 3 + n] == Tok::<Seq<char>>::Semi
                &&& render_stmt(s).len() == n + 4
            }
        } by {
            assert(vt[pos as int] == toks@[pos as int]@);
            lemma_stmt_at(vt, pos as int, s);
        }
    }
    let n = toks.len();
    if pos + 1 >= n {
        return Err(ParseError::UnexpectedEnd);
    }
    let id = match &toks[pos + 1] {
        Tok::Id(id) => id.clone(),
        _ => {
            return Err(ParseError::UnexpectedToken(pos + 1));
        },
    };
    if token_is(toks, pos + 2, &Tok::Colon) {
        if pos + 3 >= n {
            return Err(ParseError::UnexpectedEnd);
        }
        let t = match &toks[pos + 3] {
            Tok::TypeName(t) => *t,
            _ => {
                return Err(ParseError::UnexpectedToken(pos + 3));
            },
        };
        if t == Type::Void {
            return Err(ParseError::UnexpectedToken(pos + 3));
        }
        if !token_is(toks, pos + 4, &Tok::Assign) {
            return Err(error_at(toks, pos + 4));
        }
        let (e, end) = parse_expr(toks, pos + 5)?;
        if !token_is_semi(toks, end) {
            return Err(error_at(toks, end));
        }
        let s = Stmt::Decl(id, Some(t), e);
        assert(toks@.subrange(pos as int, end + 1) =~= seq![
            toks@[pos as int],
            toks@[pos + 1],
            toks@[pos + 2],
            toks@[pos + 3],
            toks@[pos + 4],
        ] + toks@.subrange(pos + 5, end as int) + seq![toks@[end as int]]);
        assert(toks@.subrange(pos as int, end + 1) =~= render_stmt(s));
        Ok((s, end + 1, false))
    } else if token_is(toks, pos + 2, &Tok::Assign) {
        let (e, end) = parse_expr(toks, pos + 3)?;
        if !token_is_semi(toks, end) {
            return Err(error_at(toks, end));
        }
        let s = Stmt::Decl(id, None, e);
        assert(toks@.subrange(pos as int, end + 1) =~= seq![
            toks@[pos as int],
            toks@[pos + 1],
            toks@[pos + 2],
        ] + toks@.subrange(pos + 3, end as int) + seq![toks@[end as int]]);
        assert(toks@.subrange(pos as int, end + 1) =~= render_stmt(s));
        Ok((s, end + 1, false))
    } else {
        Err(error_at(toks, pos + 2))
    }
}

fn parse_print(toks: &Vec<Token>, pos: usize) -> (r: Result<(Stmt, usize, bool), ParseError>)
    requires
        pos < toks@.len(),
        toks@[pos as int] == Tok::<String>::Print,
    ensures
        r matches Err(e) ==> parse_failure(e, toks@.len() as int),
        r matches Ok((s, end, omitted)) ==> parsed_stmt(toks@, pos as int, false, s, end as int, omitted),
        forall|s: Stmt| #[trigger]
            stmt_at(views(toks@), pos as int, s) ==> stmt_parsed_as(
                r,
                s,
                pos + render_stmt(s).len(),
                false,
            ),
{
    let ghost vt = views(toks@);
    proof {
        assert forall|s: Stmt| #[trigger] stmt_at(vt, pos as int, s) implies {
            let e = s->Print_0;
            let n = render_expr(e).len();
            &&& s is Print
            &&& pos + 3 + n < vt.len()
            &&& vt[pos + 1] == Tok::<Seq<char>>::LParen
            &&& expr_at(vt, pos + 2, e, 1)
            &&& vt[pos + 2 + n] == Tok::<Seq<char>>::RParen
            &&& vt[pos + 3 + n] == Tok::<Seq<char>>::Semi
            &&& render_stmt(s).len() == n + 4
        } by {
            assert(vt[pos as int] == toks@[pos as int]@);
            lemma_stmt_at(vt, pos as int, s);
        }
    }
    let n = toks.len();
    if !token_is(toks, pos + 1, &Tok::LParen) {
        return Err(error_at(toks, pos + 1));
    }
    let (e, end) = parse_expr(toks, pos + 2)?;
    if !token_is(toks, end, &Tok::RParen) {
        return Err(error_at(toks, end));
    }
    if !token_is_semi(toks, end + 1) {
        return Err(error_at(toks, end + 1));
    }
    let s = Stmt::Print(e);
    assert(toks@.subrange(pos as int, end + 2) =~= seq![toks@[pos as int], toks@[pos + 1]]
        + toks@.subrange(pos + 2, end as int) + seq![toks@[end as int], toks@[end + 1]]);
    assert(toks@.subrange(pos as int, end + 2) =~= render_stmt(s));
    Ok((s, end + 2, false))
}

fn parse_mutation(toks: &Vec<Token>, pos: usize) -> (r: Result<(Stmt, usize, bool), ParseError>)
    requires
        pos + 1 < toks@.len(),
        toks@[pos as int] is Id,
        toks@[pos + 1] == Tok::<String>::Assign,
    ensures
        r matches Err(e) ==> parse_failure(e, toks@.len() as int),
        r matches Ok((s, end, omitted)) ==> parsed_stmt(toks@, pos as int, false, s, end as int, omitted),
        forall|s: Stmt| #[trigger]
            stmt_at(views(toks@), pos as int, s) ==> stmt_parsed_as(
                r,
                s,
                pos + render_stmt(s).len(),
                false,
            ),
{
    let ghost vt = views(toks@);
    proof {
        assert forall|s: Stmt| #[trigger] stmt_at(vt, pos as int, s) implies {
            let e = s->Mutation_1;
            let n = render_expr(e).len();
            &&& s is Mutation
            &&& vt[pos as int] == Tok::<Seq<char>>::Id(s->Mutation_0@)
            &&& pos + 2 + n < vt.len()
            &&& expr_at(vt, pos + 2, e, 1)
            &&& vt[pos + 2 + n] == Tok::<Seq<char>>::Semi
            &&& render_stmt(s).len() == n + 3
        } by {
            assert(vt[pos as int] == toks@[pos as int]@);
            lemma_stmt_at(vt, pos as int, s);
        }
    }
    let n = toks.len();
    let id = match &toks[pos] {
        Tok::Id(id) => id.clone(),
        _ => {
            return Err(ParseError::UnexpectedToken(pos));
        },
    };
    let (e, end) = parse_expr(toks, pos + 2)?;
    if !token_is_semi(toks, end) {
        return Err(error_at(toks, end));
    }
    let s = Stmt::Mutation(id, e);
    assert(toks@.subrange(pos as int, end + 1) =~= seq![toks@[pos as int], toks@[pos + 1]]
        + toks@.subrange(pos + 2, end as int) + seq![toks@[end as int]]);
    assert(toks@.subrange(pos as int, end + 1) =~= render_stmt(s));
    Ok((s, end + 1, false))
}

fn parse_expr_stmt(toks: &Vec<Token>, pos: usize, top: bool) -> (r: Result<
    (Stmt, usize, bool),
    ParseError,
>)
    requires
        pos < toks@.len(),
    ensures
        r matches Err(e) ==> parse_failure(e, toks@.len() as int),
        r matches Ok((s, end, omitted)) ==> parsed_stmt(toks@, pos as int, top, s, end as int, omitted),
        forall|s: Stmt| #[trigger]
            stmt_at(views(toks@), pos as int, s) ==> s is Expr ==> stmt_parsed_as(
                r,
                s,
                pos + render_stmt(s).len(),
                false,
            ),
        forall|e: Expr| #[trigger]
            open_stmt_at(views(toks@), pos as int, e) ==> top ==> stmt_parsed_as(
                r,
                Stmt::Expr(e),
                toks@.len() as int,
                true,
            ),
{
    let ghost vt = views(toks@);
    proof {
        assert forall|s: Stmt| #[trigger] stmt_at(vt, pos as int, s) && s is Expr implies {
            let e = s->Expr_0;
            let n = render_expr(e).len();
            &&& expr_at(vt, pos as int, e, 1)
            &&& pos + n < vt.len()
            &&& vt[pos + n] == Tok::<Seq<char>>::Semi
            &&& render_stmt(s).len() == n + 1
        } by {
            assert(vt[pos as int] == toks@[pos as int]@);
            lemma_stmt_at(vt, pos as int, s);
        }
        assert forall|e: Expr| #[trigger] open_stmt_at(vt, pos as int, e) implies expr_at(
            vt,
            pos as int,
            e,
            1,
        ) by {
            lemma_open_stmt_at(vt, pos as int, e);
        }
    }
    let n = toks.len();
    let (e, end) = parse_expr(toks, pos)?;
    if token_is_semi(toks, end) {
        let s = Stmt::Expr(e);
        assert(toks@.subrange(pos as int, end + 1) =~= toks@.subrange(pos as int, end as int)
            + seq![toks@[end as int]]);
        assert(toks@.subrange(pos as int, end + 1) =~= render_stmt(s));
        Ok((s, end + 1, false))
    } else if top && end == n {
        let s = Stmt::Expr(e);
        assert(toks@.subrange(pos as int, end as int).push(Tok::Semi) =~= render_stmt(s));
        Ok((s, end, true))
    } else {
        Err(error_at(toks, end))
    }
}

#[verifier::rlimit(40)]
fn parse_if(toks: &Vec<Token>, pos: usize) -> (r: Result<(Stmt, usize, bool), ParseError>)
    requires
        pos < toks@.len(),
        toks@[pos as int] == Tok::<String>::If,
    ensures
        r matches Err(e) ==> parse_failure(e, toks@.len() as int),
        r matches Ok((s, end, omitted)) ==> parsed_stmt(toks@, pos as int, false, s, end as int, omitted),
        forall|s: Stmt| #[trigger]
            stmt_at(views(toks@), pos as int, s) ==> stmt_parsed_as(
                r,
                s,
                pos + render_stmt(s).len(),
                false,
            ),
    decreases toks@.len() - pos, 1nat,
{
    let ghost vt = views(toks@);
    proof {
        assert forall|s: Stmt| #[trigger] stmt_at(vt, pos as int, s) implies {
            let c = if s is If {
                s->If_0
            } else {
                s->IfElse_0
            };
            let yes = if s is If {
                s->If_1@
            } else {
                s->IfElse_1@
            };
            let n = render_expr(c).len();
            let m = render_stmts(yes, yes.len()).len();
            let at = pos + n + m + 3;
            &&& s is If || s is IfElse
            &&& expr_at(vt, pos + 1, c, 1)
            &&& pos + 1 + n < vt.len()
            &&& vt[pos + 1 + n] == Tok::<Seq<char>>::LBrace
            &&& block_at(vt, pos + 2 + n, yes)
            &&& s is If ==> render_stmt(s).len() == n + m + 3 && (at == vt.len() || vt[at]
                != Tok::<Seq<char>>::Else)
            &&& s is IfElse ==> {
                let no = s->IfElse_2@;
                &&& vt[at] == Tok::<Seq<char>>::Else
                &&& vt[at + 1] == Tok::<Seq<char>>::LBrace
                &&& block_at(vt, at + 2, no)
                &&& render_stmt(s).len() == n + m + render_stmts(no, no.len()).len() + 6
            }
        } by {
            assert(vt[pos as int] == toks@[pos as int]@);
            lemma_stmt_at(vt, pos as int, s);
        }
    }
    let n = toks.len();
    let (c, cend) = parse_expr(toks, pos + 1)?;
    proof {
        assert forall|s: Stmt| #[trigger] stmt_at(vt, pos as int, s) implies block_at(
            vt,
            cend + 1,
            if s is If {
                s->If_1@
            } else {
                s->IfElse_1@
            },
        ) by {}
    }
    if !token_is_lbrace(toks, cend) {
        return Err(error_at(toks, cend));
    }
    let (yes, yend) = parse_braced(toks, cend)?;
    if token_is(toks, yend, &Tok::Else) {
        proof {
            assert forall|s: Stmt| #[trigger] stmt_at(vt, pos as int, s) implies s is IfElse
                && block_at(vt, yend + 1 + 1, s->IfElse_2@) && vt[yend + 1] == Tok::<
                Seq<char>,
            >::LBrace by {}
        }
        if !token_is_lbrace(toks, yend + 1) {
            return Err(error_at(toks, yend + 1));
        }
        let (no, nend) = parse_braced(toks, yend + 1)?;
        let s = Stmt::IfElse(c, yes, no);
        assert(toks@.subrange(pos as int, nend as int) =~= seq![toks@[pos as int]]
            + toks@.subrange(pos + 1, cend as int) + toks@.subrange(cend as int, yend as int)
            + seq![toks@[yend as int]] + toks@.subrange(yend + 1, nend as int));
        assert(toks@.subrange(pos as int, nend as int) =~= render_stmt(s));
        Ok((s, nend, false))
    } else {
        let s = Stmt::If(c, yes);
        assert(toks@.subrange(pos as int, yend as int) =~= seq![toks@[pos as int]]
            + toks@.subrange(pos + 1, cend as int) + toks@.subrange(cend as int, yend as int));
        assert(toks@.subrange(pos as int, yend as int) =~= render_stmt(s));
        Ok((s, yend, false))
    }
}

fn parse_while(toks: &Vec<Token>, pos: usize) -> (r: Result<(Stmt, usize, bool), ParseError>)
    requires
        pos < toks@.len(),
        toks@[pos as int] == Tok::<String>::While,
    ensures
        r matches Err(e) ==> parse_failure(e, toks@.len() as int),
        r matches Ok((s, end, omitted)) ==> parsed_stmt(toks@, pos as int, false, s, end as int, omitted),
        forall|s: Stmt| #[trigger]
            stmt_at(views(toks@), pos as int, s) ==> stmt_parsed_as(
                r,
                s,
                pos + render_stmt(s).len(),
                false,
            ),
    decreases toks@.len() - pos, 1nat,
{
    let ghost vt = views(toks@);
    proof {
        assert forall|s: Stmt| #[trigger] stmt_at(vt, pos as int, s) implies {
            let c = s->While_0;
            let body = s->While_1@;
            let n = render_expr(c).len();
            &&& s is While
            &&& expr_at(vt, pos + 1, c, 1)
            &&& pos + 1 + n < vt.len()
            &&& vt[pos + 1 + n] == Tok::<Seq<char>>::LBrace
            &&& block_at(vt, pos + 2 + n, body)
            &&& render_stmt(s).len() == n + render_stmts(body, body.len()).len() + 3
        } by {
            assert(vt[pos as int] == toks@[pos as int]@);
            lemma_stmt_at(vt, pos as int, s);
        }
    }
    let n = toks.len();
    let (c, cend) = parse_expr(toks, pos + 1)?;
    proof {
        assert forall|s: Stmt| #[trigger] stmt_at(vt, pos as int, s) implies block_at(
            vt,
            cend + 1,
            s->While_1@,
        ) by {}
    }
    if !token_is_lbrace(toks, cend) {
        return Err(error_at(toks, cend));
    }
    let (body, bend) = parse_braced(toks, cend)?;
    let s = Stmt::While(c, body);
    assert(toks@.subrange(pos as int, bend as int) =~= seq![toks@[pos as int]]
        + toks@.subrange(pos + 1, cend as int) + toks@.subrange(cend as int, bend as int));
    assert(toks@.subrange(pos as int, bend as int) =~= render_stmt(s));
    Ok((s, bend, false))
}

/// Parses a sequence of tokens as a program.
pub fn parse_tokens(toks: &Vec<Token>) -> (r: Result<SyntaxTree, ParseError>)
    ensures
        r matches Err(e) ==> parse_failure(e, toks@.len() as int),
        r matches Ok(p) ==> program_at(views(toks@), p) && (render_program(p) == toks@
            || render_program(p) == toks@.push(Tok::Semi)),
        r is Ok <==> exists|p: SyntaxTree| #[trigger] program_at(views(toks@), p),
        forall|p: SyntaxTree| #[trigger]
            program_at(views(toks@), p) ==> (r matches Ok(q) && program_eqv(q, p)),
{
    let ghost vt = views(toks@);
    let mut ss: Vec<Stmt> = Vec::new();
    let mut cur: usize = 0;
    let mut omitted_last = false;
    assert(toks@.subrange(0, 0) =~= Seq::<Token>::empty());
    while cur < toks.len()
        invariant
            cur <= toks@.len(),
            vt == views(toks@),
            wf_stmts(ss@, ss@.len()),
            if omitted_last {
                &&& cur == toks@.len()
                &&& toks@.push(Tok::Semi) == render_stmts(ss@, ss@.len())
                &&& ss@.len() > 0
                &&& ss@.last() is Expr
            } else {
                toks@.subrange(0, cur as int) == render_stmts(ss@, ss@.len())
            },
            forall|p: SyntaxTree| #[trigger]
                program_at(vt, p) ==> stmts_eqv(ss@, p.stmts@, ss@.len()) && if omitted_last {
                    cur == vt.len() && ss@.len() == p.stmts@.len()
                } else {
                    &&& ss@.len() <= p.stmts@.len()
                    &&& cur == render_stmts(p.stmts@, ss@.len()).len()
                    &&& views(render_program(p)) != vt ==> ss@.len() < p.stmts@.len()
                },
        decreases toks@.len() - cur,
    {
        proof {
            assert forall|p: SyntaxTree| #[trigger] program_at(vt, p) implies {
                let ps = p.stmts@;
                let k = ss@.len();
                &&& k < ps.len()
                &&& if views(render_program(p)) == vt || k + 1 < ps.len() {
                    &&& stmt_at(vt, cur as int, ps[k as int])
                    &&& render_stmts(ps, k + 1).len() == cur + render_stmt(ps[k as int]).len()
                    &&& views(render_program(p)) != vt ==> k + 1 < ps.len()
                } else {
                    ps[k as int] is Expr && open_stmt_at(vt, cur as int, ps[k as int]->Expr_0)
                }
            } by {
                lemma_program_at(vt, p, ss@.len());
            }
        }
        let (s, end, omitted) = parse_stmt(toks, cur, true)?;
        proof {
            assert forall|p: SyntaxTree| #[trigger] program_at(vt, p) implies stmts_eqv(
                ss@.push(s),
                p.stmts@,
                ss@.len() + 1,
            ) by {
                lemma_stmts_eqv_push(ss@, s, p.stmts@, ss@.len());
            }
            lemma_render_stmts_push(ss@, s);
            if omitted {
                assert(toks@.push(Tok::Semi) =~= toks@.subrange(0, cur as int) + toks@.subrange(
                    cur as int,
                    end as int,
                ).push(Tok::Semi));
            } else {
                assert(toks@.subrange(0, end as int) =~= toks@.subrange(0, cur as int)
                    + toks@.subrange(cur as int, end as int));
            }
        }
        ss.push(s);
        cur = end;
        omitted_last = omitted;
    }
    proof {
        if !omitted_last {
            assert(toks@.subrange(0, cur as int) =~= toks@);
        } else {
            assert(views(toks@.push(Tok::Semi)) =~= vt.push(Tok::Semi));
        }
    }
    let p = SyntaxTree { stmts: ss };
    proof {
        assert(program_at(vt, p));
        assert forall|q: SyntaxTree| #[trigger] program_at(vt, q) implies program_eqv(p, q) by {
            lemma_program_at(vt, q, p.stmts@.len());
        }
    }
    Ok(p)
}

/// Parses a program's text: it splits the text into tokens and parses them.
/// It succeeds exactly when the tokens are those of a well-formed program.
pub fn parse_program(input: &str) -> (r: Result<SyntaxTree, ParseError>)
    ensures
        lex(input@) matches Err(e) ==> r == Err::<SyntaxTree, ParseError>(ParseError::Lex(e)),
        r matches Ok(p) ==> lex(input@) is Ok && program_at(lex(input@)->Ok_0, p),
        lex(input@) is Ok ==> (r is Ok <==> exists|p: SyntaxTree| #[trigger]
            program_at(lex(input@)->Ok_0, p)),
        lex(input@) is Ok ==> (r matches Err(e) ==> parse_failure(e, lex(input@)->Ok_0.len() as int)),
        forall|p: SyntaxTree| #[trigger]
            program_at(lex(input@)->Ok_0, p) ==> lex(input@) is Ok ==> (r matches Ok(q)
                && program_eqv(q, p)),
{
    let toks = match tokenize(input) {
        Ok(t) => t,
        Err(e) => {
            return Err(ParseError::Lex(e));
        },
    };
    parse_tokens(&toks)
}

} // verus!
