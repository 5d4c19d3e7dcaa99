use vstd::prelude::*;
use crate::text::str_eq;
use crate::type_checker::value_type::{type_of_name, Type};

verus! {

/// Tokens. `S` is the type of the text a literal or a name carries.
#[derive(Debug, PartialEq, Eq)]
pub enum Tok<S> {
    /// Digits, such as `42`.
    Int(S),
    /// Digits, a dot and digits, such as `4.5`.
    Float(S),
    /// A double-quoted string, quotes included.
    Str(S),
    /// A single-quoted char, quotes included.
    Char(S),
    /// A name.
    Id(S),
    /// A type name: `int`, `float`, `bool`, `string` or `char`.
    TypeName(Type),
    Let,
    If,
    Else,
    While,
    Print,
    ToStr,
    True,
    False,
    And,
    Or,
    Not,
    Mod,
    LParen,
    RParen,
    LBrace,
    RBrace,
    Semi,
    Colon,
    Assign,
    EqEq,
    NotEq,
    Lt,
    Le,
    Gt,
    Ge,
    Plus,
    Minus,
    Star,
    Slash,
    Caret,
}

/// A token as the lexer produces it.
pub type Token = Tok<String>;

/// A token with its text seen as characters.
pub type TokenView = Tok<Seq<char>>;

impl View for Tok<String> {
    type V = TokenView;

    open spec fn view(&self) -> TokenView {
        match self {
            Tok::Int(s) => Tok::Int(s@),
            Tok::Float(s) => Tok::Float(s@),
            Tok::Str(s) => Tok::Str(s@),
            Tok::Char(s) => Tok::Char(s@),
            Tok::Id(s) => Tok::Id(s@),
            Tok::TypeName(t) => Tok::TypeName(*t),
            Tok::Let => Tok::Let,
            Tok::If => Tok::If,
            Tok::Else => Tok::Else,
            Tok::While => Tok::While,
            Tok::Print => Tok::Print,
            Tok::ToStr => Tok::ToStr,
            Tok::True => Tok::True,
            Tok::False => Tok::False,
            Tok::And => Tok::And,
            Tok::Or => Tok::Or,
            Tok::Not => Tok::Not,
            Tok::Mod => Tok::Mod,
            Tok::LParen => Tok::LParen,
            Tok::RParen => Tok::RParen,
            Tok::LBrace => Tok::LBrace,
            Tok::RBrace => Tok::RBrace,
            Tok::Semi => Tok::Semi,
            Tok::Colon => Tok::Colon,
            Tok::Assign => Tok::Assign,
            Tok::EqEq => Tok::EqEq,
            Tok::NotEq => Tok::NotEq,
            Tok::Lt => Tok::Lt,
            Tok::Le => Tok::Le,
            Tok::Gt => Tok::Gt,
            Tok::Ge => Tok::Ge,
            Tok::Plus => Tok::Plus,
            Tok::Minus => Tok::Minus,
            Tok::Star => Tok::Star,
            Tok::Slash => Tok::Slash,
            Tok::Caret => Tok::Caret,
        }
    }
}

/// Why a text could not be split into tokens; positions count characters.
#[derive(Debug, PartialEq, Eq, Clone, Copy)]
pub enum LexError {
    /// A character that starts no token.
    UnexpectedChar(usize),
    /// A string or char literal that is not closed.
    UnterminatedLiteral(usize),
    /// A `/*` comment that is not closed.
    UnterminatedComment(usize),
}

pub open spec fn is_space(c: char) -> bool {
    c == ' ' || c == '\t' || c == '\n' || c == '\r'
}

pub open spec fn is_digit(c: char) -> bool {
    '0' <= c <= '9'
}

pub open spec fn is_ident_start(c: char) -> bool {
    ('a' <= c <= 'z') || ('A' <= c <= 'Z') || c == '_'
}

pub open spec fn is_ident_char(c: char) -> bool {
    is_ident_start(c) || is_digit(c)
}

/// End of the run of digits that starts at `i`.
pub open spec fn digits_end(s: Seq<char>, i: int) -> int
    decreases s.len() - i,
{
    if 0 <= i < s.len() && is_digit(s[i]) {
        digits_end(s, i + 1)
    } else {
        i
    }
}

/// End of the run of name characters that starts at `i`.
pub open spec fn ident_end(s: Seq<char>, i: int) -> int
    decreases s.len() - i,
{
    if 0 <= i < s.len() && is_ident_char(s[i]) {
        ident_end(s, i + 1)
    } else {
        i
    }
}

/// End of a line comment whose text starts at `i`: the next newline, which is
/// left for the whitespace rule, or the end of the text.
pub open spec fn line_end(s: Seq<char>, i: int) -> int
    decreases s.len() - i,
{
    if 0 <= i < s.len() && s[i] != '\n' {
        line_end(s, i + 1)
    } else {
        i
    }
}

/// End of a block comment whose text starts at `i`: just past the first `*/`.
pub open spec fn comment_end(s: Seq<char>, i: int) -> Option<int>
    decreases s.len() - i,
{
    if i < 0 || i + 1 >= s.len() {
        None
    } else if s[i] == '*' && s[i + 1] == '/' {
        Some(i + 2)
    } else {
        comment_end(s, i + 1)
    }
}

/// End of a literal closed by `q` whose contents start at `i`: just past the
/// first `q` not escaped by a backslash.
pub open spec fn quoted_end(s: Seq<char>, i: int, q: char) -> Option<int>
    decreases s.len() - i,
{
    if i < 0 || i >= s.len() {
        None
    } else if s[i] == '\\' {
        if i + 1 < s.len() {
            quoted_end(s, i + 2, q)
        } else {
            None
        }
    } else if s[i] == q {
        Some(i + 1)
    } else {
        quoted_end(s, i + 1, q)
    }
}

/// The token a name denotes: a keyword, a type name or an identifier.
pub open spec fn word_token(w: Seq<char>) -> TokenView {
    if w == "let"@ {
        Tok::Let
    } else if w == "if"@ {
        Tok::If
    } else if w == "else"@ {
        Tok::Else
    } else if w == "while"@ {
        Tok::While
    } else if w == "print"@ {
        Tok::Print
    } else if w == "to_str"@ {
        Tok::ToStr
    } else if w == "true"@ {
        Tok::True
    } else if w == "false"@ {
        Tok::False
    } else if w == "and"@ {
        Tok::And
    } else if w == "or"@ {
        Tok::Or
    } else if w == "not"@ {
        Tok::Not
    } else if w == "mod"@ {
        Tok::Mod
    } else if w == "int"@ {
        Tok::TypeName(Type::Int)
    } else if w == "float"@ {
        Tok::TypeName(Type::Float)
    } else if w == "bool"@ {
        Tok::TypeName(Type::Bool)
    } else if w == "string"@ {
        Tok::TypeName(Type::String)
    } else if w == "char"@ {
        Tok::TypeName(Type::Char)
    } else {
        Tok::Id(w)
    }
}

/// A word lexes as a type name exactly when `Type::from_str` reads a type
/// from it, and then as that type.
pub proof fn law_type_names_agree(w: Seq<char>)
    ensures
        (word_token(w) is TypeName) == (type_of_name(w) is Some),
        type_of_name(w) matches Some(t) ==> word_token(w) == Tok::<Seq<char>>::TypeName(t),
{
    reveal_strlit("let");
    reveal_strlit("if");
    reveal_strlit("else");
    reveal_strlit("while");
    reveal_strlit("print");
    reveal_strlit("to_str");
    reveal_strlit("true");
    reveal_strlit("false");
    reveal_strlit("and");
    reveal_strlit("or");
    reveal_strlit("not");
    reveal_strlit("mod");
    reveal_strlit("int");
    reveal_strlit("float");
    reveal_strlit("bool");
    reveal_strlit("string");
    reveal_strlit("char");
    // The words differ in length or in their first characters.
    assert("let"@.len() == 3 && "let"@[0] == 'l');
    assert("if"@.len() == 2 && "if"@[0] == 'i');
    assert("else"@.len() == 4 && "else"@[0] == 'e');
    assert("while"@.len() == 5 && "while"@[0] == 'w');
    assert("print"@.len() == 5 && "print"@[0] == 'p');
    assert("to_str"@.len() == 6 && "to_str"@[0] == 't');
    assert("true"@.len() == 4 && "true"@[0] == 't');
    assert("false"@.len() == 5 && "false"@[0] == 'f');
    assert("and"@.len() == 3 && "and"@[0] == 'a');
    assert("or"@.len() == 2 && "or"@[0] == 'o');
    assert("not"@.len() == 3 && "not"@[0] == 'n');
    assert("mod"@.len() == 3 && "mod"@[0] == 'm');
    assert("int"@.len() == 3 && "int"@[0] == 'i');
    assert("float"@.len() == 5 && "float"@[0] == 'f');
    assert("bool"@.len() == 4 && "bool"@[0] == 'b');
    assert("string"@.len() == 6 && "string"@[0] == 's');
    assert("char"@.len() == 4 && "char"@[0] == 'c');
    assert("float"@[1] == 'l' && "false"@[1] == 'a');
}

/// The operator or punctuation token at `i` and where it ends.
pub open spec fn symbol_at(s: Seq<char>, i: int) -> Option<(TokenView, int)> {
    let c = s[i];
    let next_is_eq = i + 1 < s.len() && s[i + 1] == '=';
    if c == '(' {
        Some((Tok::LParen, i + 1))
    } else if c == ')' {
        Some((Tok::RParen, i + 1))
    } else if c == '{' {
        Some((Tok::LBrace, i + 1))
    } else if c == '}' {
        Some((Tok::RBrace, i + 1))
    } else if c == ';' {
        Some((Tok::Semi, i + 1))
    } else if c == ':' {
        Some((Tok::Colon, i + 1))
    } else if c == '+' {
        Some((Tok::Plus, i + 1))
    } else if c == '-' {
        Some((Tok::Minus, i + 1))
    } else if c == '*' {
        Some((Tok::Star, i + 1))
    } else if c == '/' {
        Some((Tok::Slash, i + 1))
    } else if c == '^' {
        Some((Tok::Caret, i + 1))
    } else if c == '=' {
        if next_is_eq {
            Some((Tok::EqEq, i + 2))
        } else {
            Some((Tok::Assign, i + 1))
        }
    } else if c == '!' && next_is_eq {
        Some((Tok::NotEq, i + 2))
    } else if c == '<' {
        if next_is_eq {
            Some((Tok::Le, i + 2))
        } else {
            Some((Tok::Lt, i + 1))
        }
    } else if c == '>' {
        if next_is_eq {
            Some((Tok::Ge, i + 2))
        } else {
            Some((Tok::Gt, i + 1))
        }
    } else {
        None
    }
}

/// The longest token that starts at `i`, which holds no blank and starts no
/// comment, and where it ends.
pub open spec fn token_at(s: Seq<char>, i: int) -> Result<(TokenView, int), LexError>
    recommends
        0 <= i < s.len(),
{
    let c = s[i];
    if is_digit(c) {
        let j = digits_end(s, i);
        if j + 1 < s.len() && s[j] == '.' && is_digit(s[j + 1]) {
            let k = digits_end(s, j + 1);
            Ok((Tok::Float(s.subrange(i, k)), k))
        } else {
            Ok((Tok::Int(s.subrange(i, j)), j))
        }
    } else if is_ident_start(c) {
        let j = ident_end(s, i);
        Ok((word_token(s.subrange(i, j)), j))
    } else if c == '"' || c == '\'' {
        match quoted_end(s, i + 1, c) {
            Some(j) => Ok(
                (
                    if c == '"' {
                        Tok::Str(s.subrange(i, j))
                    } else {
                        Tok::Char(s.subrange(i, j))
                    },
                    j,
                ),
            ),
            None => Err(LexError::UnterminatedLiteral(i as usize)),
        }
    } else {
        match symbol_at(s, i) {
            Some(x) => Ok(x),
            None => Err(LexError::UnexpectedChar(i as usize)),
        }
    }
}

/// The tokens of `s` from position `i` on: blanks and comments (`// ...` to
/// the end of the line, `/* ... */`) separate tokens, and each token is the
/// longest one that starts where it does.
pub open spec fn lex_from(s: Seq<char>, i: int) -> Result<Seq<TokenView>, LexError>
    decreases s.len() - i, 1int,
{
    if i < 0 || i >= s.len() {
        Ok(seq![])
    } else if is_space(s[i]) {
        lex_from(s, i + 1)
    } else if s[i] == '/' && i + 1 < s.len() && s[i + 1] == '/' {
        let j = line_end(s, i + 2);
        if i < j <= s.len() {
            lex_from(s, j)
        } else {
            Ok(seq![])
        }
    } else if s[i] == '/' && i + 1 < s.len() && s[i + 1] == '*' {
        match comment_end(s, i + 2) {
            Some(j) => if i < j <= s.len() {
                lex_from(s, j)
            } else {
                Ok(seq![])
            },
            None => Err(LexError::UnterminatedComment(i as usize)),
        }
    } else {
        match token_at(s, i) {
            Ok((t, j)) => if i < j <= s.len() {
                match lex_from(s, j) {
                    Ok(rest) => Ok(seq![t] + rest),
                    Err(e) => Err(e),
                }
            } else {
                Ok(seq![])
            },
            Err(e) => Err(e),
        }
    }
}

/// The tokens of a text.
pub open spec fn lex(s: Seq<char>) -> Result<Seq<TokenView>, LexError> {
    lex_from(s, 0)
}

/// A run of digits from `i` to `k` that no digit follows ends at `k`.
proof fn lemma_digits_end(s: Seq<char>, i: int, k: int)
    requires
        0 <= i <= k <= s.len(),
        forall|j: int| i <= j < k ==> is_digit(#[trigger] s[j]),
        k == s.len() || !is_digit(s[k]),
    ensures
        digits_end(s, i) == k,
    decreases k - i,
{
    if i < k {
        lemma_digits_end(s, i + 1, k);
    }
}

/// A text that is one float literal, digits, a point and digits, is one
/// `Float` token that carries the whole text.
pub proof fn law_float_literal_is_one_token(whole: Seq<char>, frac: Seq<char>)
    requires
        whole.len() > 0,
        frac.len() > 0,
        forall|j: int| 0 <= j < whole.len() ==> is_digit(#[trigger] whole[j]),
        forall|j: int| 0 <= j < frac.len() ==> is_digit(#[trigger] frac[j]),
    ensures
        lex(whole + seq!['.'] + frac) == Ok::<Seq<TokenView>, LexError>(
            seq![Tok::Float(whole + seq!['.'] + frac)],
        ),
{
    let s = whole + seq!['.'] + frac;
    let n = whole.len() as int;
    assert(forall|j: int| 0 <= j < n ==> s[j] == whole[j]);
    assert(s[n] == '.');
    assert(forall|j: int| n + 1 <= j < s.len() ==> s[j] == frac[j - n - 1]);
    lemma_digits_end(s, 0, n);
    assert forall|j: int| n + 1 <= j < s.len() implies is_digit(#[trigger] s[j]) by {
        assert(s[j] == frac[j - n - 1]);
    }
    lemma_digits_end(s, n + 1, s.len() as int);
    assert(is_digit(s[0]));
    assert(is_digit(s[n + 1]));
    assert(s.subrange(0, s.len() as int) =~= s);
    assert(token_at(s, 0) == Ok::<(TokenView, int), LexError>((Tok::Float(s), s.len() as int)));
    assert(lex_from(s, s.len() as int) == Ok::<Seq<TokenView>, LexError>(seq![]));
    assert(seq![Tok::Float(s)] + seq![] =~= seq![Tok::Float(s)]);
}

/// A text that is one run of digits is one `Int` token that carries the
/// whole text.
pub proof fn law_int_literal_is_one_token(digits: Seq<char>)
    requires
        digits.len() > 0,
        forall|j: int| 0 <= j < digits.len() ==> is_digit(#[trigger] digits[j]),
    ensures
        lex(digits) == Ok::<Seq<TokenView>, LexError>(seq![Tok::Int(digits)]),
{
    let n = digits.len() as int;
    lemma_digits_end(digits, 0, n);
    assert(is_digit(digits[0]));
    assert(digits.subrange(0, n) =~= digits);
    assert(token_at(digits, 0) == Ok::<(TokenView, int), LexError>((Tok::Int(digits), n)));
    assert(lex_from(digits, n) == Ok::<Seq<TokenView>, LexError>(seq![]));
    assert(seq![Tok::Int(digits)] + seq![] =~= seq![Tok::Int(digits)]);
}

/// A run of name characters from `i` to `k` that no name character follows
/// ends at `k`.
proof fn lemma_ident_end(s: Seq<char>, i: int, k: int)
    requires
        0 <= i <= k <= s.len(),
        forall|j: int| i <= j < k ==> is_ident_char(#[trigger] s[j]),
        k == s.len() || !is_ident_char(s[k]),
    ensures
        ident_end(s, i) == k,
    decreases k - i,
{
    if i < k {
        lemma_ident_end(s, i + 1, k);
    }
}

/// A text that is one word (a letter or `_`, then letters, digits and `_`)
/// is one token: the keyword or type name it spells, or else a name that
/// carries the whole word.
pub proof fn law_word_is_one_token(w: Seq<char>)
    requires
        w.len() > 0,
        is_ident_start(w[0]),
        forall|j: int| 0 <= j < w.len() ==> is_ident_char(#[trigger] w[j]),
    ensures
        lex(w) == Ok::<Seq<TokenView>, LexError>(seq![word_token(w)]),
        word_token(w) is Id ==> word_token(w) == Tok::<Seq<char>>::Id(w),
{
    let n = w.len() as int;
    lemma_ident_end(w, 0, n);
    assert(!is_digit(w[0]));
    assert(w.subrange(0, n) =~= w);
    assert(token_at(w, 0) == Ok::<(TokenView, int), LexError>((word_token(w), n)));
    assert(lex_from(w, n) == Ok::<Seq<TokenView>, LexError>(seq![]));
    assert(seq![word_token(w)] + seq![] =~= seq![word_token(w)]);
}

/// The views of a sequence of tokens.
pub open spec fn views(ts: Seq<Token>) -> Seq<TokenView> {
    ts.map_values(|t: Token| t@)
}

fn is_digit_exec(c: char) -> (r: bool)
    ensures
        r == is_digit(c),
{
    '0' <= c && c <= '9'
}

fn is_ident_start_exec(c: char) -> (r: bool)
    ensures
        r == is_ident_start(c),
{
    ('a' <= c && c <= 'z') || ('A' <= c && c <= 'Z') || c == '_'
}

fn is_ident_char_exec(c: char) -> (r: bool)
    ensures
        r == is_ident_char(c),
{
    is_ident_start_exec(c) || is_digit_exec(c)
}

fn scan_digits(s: &str, n: usize, i: usize) -> (r: usize)
    requires
        n == s@.len(),
        i <= n,
    ensures
        r == digits_end(s@, i as int),
        i <= r <= n,
        i < n && is_digit(s@[i as int]) ==> i < r,
    decreases n - i,
{
    if i < n && is_digit_exec(s.get_char(i)) {
        scan_digits(s, n, i + 1)
    } else {
        i
    }
}

fn scan_ident(s: &str, n: usize, i: usize) -> (r: usize)
    requires
        n == s@.len(),
        i <= n,
    ensures
        r == ident_end(s@, i as int),
        i <= r <= n,
        i < n && is_ident_char(s@[i as int]) ==> i < r,
    decreases n - i,
{
    if i < n && is_ident_char_exec(s.get_char(i)) {
        scan_ident(s, n, i + 1)
    } else {
        i
    }
}

fn scan_line(s: &str, n: usize, i: usize) -> (r: usize)
    requires
        n == s@.len(),
        i <= n,
    ensures
        r == line_end(s@, i as int),
        i <= r <= n,
    decreases n - i,
{
    if i < n && s.get_char(i) != '\n' {
        scan_line(s, n, i + 1)
    } else {
        i
    }
}

fn scan_comment(s: &str, n: usize, i: usize) -> (r: Option<usize>)
    requires
        n == s@.len(),
        i <= n,
    ensures
        match r {
            Some(j) => comment_end(s@, i as int) == Some(j as int) && i < j <= n,
            None => comment_end(s@, i as int) is None,
        },
    decreases n - i,
{
    if n - i < 2 {
        None
    } else if s.get_char(i) == '*' && s.get_char(i + 1) == '/' {
        Some(i + 2)
    } else {
        scan_comment(s, n, i + 1)
    }
}

fn scan_quoted(s: &str, n: usize, i: usize, q: char) -> (r: Option<usize>)
    requires
        n == s@.len(),
        i <= n,
    ensures
        match r {
            Some(j) => quoted_end(s@, i as int, q) == Some(j as int) && i < j <= n,
            None => quoted_end(s@, i as int, q) is None,
        },
    decreases n - i,
{
    if i >= n {
        None
    } else {
        let c = s.get_char(i);
        if c == '\\' {
            if i + 1 < n {
                scan_quoted(s, n, i + 2, q)
            } else {
                None
            }
        } else if c == q {
            Some(i + 1)
        } else {
            scan_quoted(s, n, i + 1, q)
        }
    }
}

fn word(w: &str) -> (r: Token)
    ensures
        r@ == word_token(w@),
{
    if str_eq(w, "let") {
        Tok::Let
    } else if str_eq(w, "if") {
        Tok::If
    } else if str_eq(w, "else") {
        Tok::Else
    } else if str_eq(w, "while") {
        Tok::While
    } else if str_eq(w, "print") {
        Tok::Print
    } else if str_eq(w, "to_str") {
        Tok::ToStr
    } else if str_eq(w, "true") {
        Tok::True
    } else if str_eq(w, "false") {
        Tok::False
    } else if str_eq(w, "and") {
        Tok::And
    } else if str_eq(w, "or") {
        Tok::Or
    } else if str_eq(w, "not") {
        Tok::Not
    } else if str_eq(w, "mod") {
        Tok::Mod
    } else if str_eq(w, "int") {
        Tok::TypeName(Type::Int)
    } else if str_eq(w, "float") {
        Tok::TypeName(Type::Float)
    } else if str_eq(w, "bool") {
        Tok::TypeName(Type::Bool)
    } else if str_eq(w, "string") {
        Tok::TypeName(Type::String)
    } else if str_eq(w, "char") {
        Tok::TypeName(Type::Char)
    } else {
        Tok::Id(String::from_str(w))
    }
}

fn symbol(s: &str, n: usize, i: usize) -> (r: Option<(Token, usize)>)
    requires
        n == s@.len(),
        i < n,
    ensures
        match r {
            Some((t, j)) => symbol_at(s@, i as int) == Some((t@, j as int)) && i < j <= n,
            None => symbol_at(s@, i as int) is None,
        },
{
    let c = s.get_char(i);
    let next_is_eq = i + 1 < n && s.get_char(i + 1) == '=';
    if c == '(' {
        Some((Tok::LParen, i + 1))
    } else if c == ')' {
        Some((Tok::RParen, i + 1))
    } else if c == '{' {
        Some((Tok::LBrace, i + 1))
    } else if c == '}' {
        Some((Tok::RBrace, i + 1))
    } else if c == ';' {
        Some((Tok::Semi, i + 1))
    } else if c == ':' {
        Some((Tok::Colon, i + 1))
    } else if c == '+' {
        Some((Tok::Plus, i + 1))
    } else if c == '-' {
        Some((Tok::Minus, i + 1))
    } else if c == '*' {
        Some((Tok::Star, i + 1))
    } else if c == '/' {
        Some((Tok::Slash, i + 1))
    } else if c == '^' {
        Some((Tok::Caret, i + 1))
    } else if c == '=' {
        if next_is_eq {
            Some((Tok::EqEq, i + 2))
        } else {
            Some((Tok::Assign, i + 1))
        }
    } else if c == '!' && next_is_eq {
        Some((Tok::NotEq, i + 2))
    } else if c == '<' {
        if next_is_eq {
            Some((Tok::Le, i + 2))
        } else {
            Some((Tok::Lt, i + 1))
        }
    } else if c == '>' {
        if next_is_eq {
            Some((Tok::Ge, i + 2))
        } else {
            Some((Tok::Gt, i + 1))
        }
    } else {
        None
    }
}

fn next_token(s: &str, n: usize, i: usize) -> (r: Result<(Token, usize), LexError>)
    requires
        n == s@.len(),
        i < n,
    ensures
        match r {
            Ok((t, j)) => token_at(s@, i as int) == Ok::<(TokenView, int), LexError>(
                (t@, j as int),
            ) && i < j <= n,
            Err(e) => token_at(s@, i as int) == Err::<(TokenView, int), LexError>(e),
        },
{
    let c = s.get_char(i);
    if is_digit_exec(c) {
        let j = scan_digits(s, n, i);
        if j < n - 1 && s.get_char(j) == '.' && is_digit_exec(s.get_char(j + 1)) {
            let k = scan_digits(s, n, j + 1);
            Ok((Tok::Float(String::from_str(s.substring_char(i, k))), k))
        } else {
            Ok((Tok::Int(String::from_str(s.substring_char(i, j))), j))
        }
    } else if is_ident_start_exec(c) {
        let j = scan_ident(s, n, i);
        Ok((word(s.substring_char(i, j)), j))
    } else if c == '"' || c == '\'' {
        match scan_quoted(s, n, i + 1, c) {
            Some(j) => {
                let text = String::from_str(s.substring_char(i, j));
                if c == '"' {
                    Ok((Tok::Str(text), j))
                } else {
                    Ok((Tok::Char(text), j))
                }
            },
            None => Err(LexError::UnterminatedLiteral(i)),
        }
    } else {
        match symbol(s, n, i) {
            Some(x) => Ok(x),
            None => Err(LexError::UnexpectedChar(i)),
        }
    }
}

/// Splits a text into tokens.
pub fn tokenize(s: &str) -> (r: Result<Vec<Token>, LexError>)
    ensures
        match lex(s@) {
            Ok(ts) => r matches Ok(v) && views(v@) == ts,
            Err(e) => r == Err::<Vec<Token>, LexError>(e),
        },
{
    let n = s.unicode_len();
    let mut toks: Vec<Token> = Vec::new();
    let mut i: usize = 0;
    while i < n
        invariant
            n == s@.len(),
            i <= n,
            match lex(s@) {
                Ok(ts) => lex_from(s@, i as int) matches Ok(rest) && ts == views(toks@) + rest,
                Err(e) => lex_from(s@, i as int) == Err::<Seq<TokenView>, LexError>(e),
            },
        decreases n - i,
    {
        let c = s.get_char(i);
        if c == ' ' || c == '\t' || c == '\n' || c == '\r' {
            i = i + 1;
        } else if c == '/' && i + 1 < n && s.get_char(i + 1) == '/' {
            i = scan_line(s, n, i + 2);
        } else if c == '/' && i + 1 < n && s.get_char(i + 1) == '*' {
            match scan_comment(s, n, i + 2) {
                Some(j) => {
                    i = j;
                },
                None => {
                    return Err(LexError::UnterminatedComment(i));
                },
            }
        } else {
            let (t, j) = next_token(s, n, i)?;
            let ghost before = toks@;
            toks.push(t);
            proof {
                assert(views(toks@) =~= views(before) + seq![t@]);
                match lex(s@) {
                    Ok(ts) => {
                        let rest = lex_from(s@, j as int)->Ok_0;
                        assert(views(before) + (seq![t@] + rest) =~= views(toks@) + rest);
                    },
                    Err(e) => {},
                }
            }
            i = j;
        }
    }
    proof {
        match lex(s@) {
            Ok(ts) => {
                assert(views(toks@) + seq![] =~= views(toks@));
            },
            Err(e) => {},
        }
    }
    Ok(toks)
}

} // verus!
