use imp_interpreter::ast::{BinaryOp, Expr, Stmt, UnaryOp};
use imp_interpreter::parser::lexer::{tokenize, LexError, Tok};
use imp_interpreter::parser::{parse_program, parse_tokens, ParseError};
use imp_interpreter::type_checker::value_type::Type;

fn lit(t: &str) -> Box<Expr> {
    Box::new(Expr::Int(t.to_string()))
}

fn expr_of(program: &str) -> Expr {
    let mut tree = parse_program(program).unwrap();
    assert_eq!(tree.stmts.len(), 1);
    match tree.stmts.pop().unwrap() {
        Stmt::Expr(e) => e,
        other => panic!("not an expression: {:?}", other),
    }
}

#[test]
fn lexer_splits_tokens() {
    let toks = tokenize("let x_1: int = 12 <= 3.5; // end").unwrap();
    assert_eq!(
        toks,
        vec![
            Tok::Let,
            Tok::Id("x_1".to_string()),
            Tok::Colon,
            Tok::TypeName(Type::Int),
            Tok::Assign,
            Tok::Int("12".to_string()),
            Tok::Le,
            Tok::Float("3.5".to_string()),
            Tok::Semi,
        ]
    );
}

#[test]
fn lexer_literals_keep_their_quotes() {
    let toks = tokenize(r#""a\"b" '\'' /* c */ 'x'"#).unwrap();
    assert_eq!(
        toks,
        vec![
            Tok::Str(r#""a\"b""#.to_string()),
            Tok::Char(r"'\''".to_string()),
            Tok::Char("'x'".to_string()),
        ]
    );
}

#[test]
fn lexer_errors() {
    assert_eq!(tokenize("1 # 2"), Err(LexError::UnexpectedChar(2)));
    assert_eq!(tokenize("1 ! 2"), Err(LexError::UnexpectedChar(2)));
    assert_eq!(tokenize("'abc"), Err(LexError::UnterminatedLiteral(0)));
    assert_eq!(tokenize("x /* never closed"), Err(LexError::UnterminatedComment(2)));
    assert_eq!(tokenize("12.x"), Err(LexError::UnexpectedChar(2)));
}

#[test]
fn lexer_keywords_and_operators() {
    let toks = tokenize("if else while print to_str true false and or not mod != == > >= < ^ / * - + { } ( )").unwrap();
    assert_eq!(
        toks,
        vec![
            Tok::If, Tok::Else, Tok::While, Tok::Print, Tok::ToStr, Tok::True, Tok::False,
            Tok::And, Tok::Or, Tok::Not, Tok::Mod, Tok::NotEq, Tok::EqEq, Tok::Gt, Tok::Ge,
            Tok::Lt, Tok::Caret, Tok::Slash, Tok::Star, Tok::Minus, Tok::Plus, Tok::LBrace,
            Tok::RBrace, Tok::LParen, Tok::RParen,
        ]
    );
}

#[test]
fn parser_precedence_of_arithmetic() {
    let e = expr_of("5-2*10/2");
    let expected = Expr::Binary(
        BinaryOp::Sub,
        lit("5"),
        Box::new(Expr::Binary(
            BinaryOp::Div,
            Box::new(Expr::Binary(BinaryOp::Mul, lit("2"), lit("10"))),
            lit("2"),
        )),
    );
    assert_eq!(e, expected);
}

#[test]
fn parser_pow_is_right_associative_and_binds_tighter_than_mul() {
    let e = expr_of("2*3^2^2");
    let expected = Expr::Binary(
        BinaryOp::Mul,
        lit("2"),
        Box::new(Expr::Binary(
            BinaryOp::Pow,
            lit("3"),
            Box::new(Expr::Binary(BinaryOp::Pow, lit("2"), lit("2"))),
        )),
    );
    assert_eq!(e, expected);
}

#[test]
fn parser_unary_binds_tightest() {
    let e = expr_of("-2^2");
    let expected = Expr::Binary(
        BinaryOp::Pow,
        Box::new(Expr::Unary(UnaryOp::Neg, lit("2"))),
        lit("2"),
    );
    assert_eq!(e, expected);
}

#[test]
fn parser_logic_and_comparison_levels() {
    let e = expr_of("1 < 2 == true and x : \"s\" != y");
    let lt = Expr::Binary(BinaryOp::Lt, lit("1"), lit("2"));
    let eq = Expr::Binary(BinaryOp::Eq, Box::new(lt), Box::new(Expr::Bool(true)));
    let concat = Expr::Binary(
        BinaryOp::Concat,
        Box::new(Expr::Id("x".to_string())),
        Box::new(Expr::Str("\"s\"".to_string())),
    );
    let ne = Expr::Binary(BinaryOp::Ne, Box::new(concat), Box::new(Expr::Id("y".to_string())));
    assert_eq!(e, Expr::Binary(BinaryOp::And, Box::new(eq), Box::new(ne)));
}

#[test]
fn parser_casts_and_to_str() {
    let e = expr_of("to_str(float(1))");
    let expected = Expr::ToStr(Box::new(Expr::Cast(Type::Float, lit("1"))));
    assert_eq!(e, expected);
}

#[test]
fn parser_statements() {
    let tree = parse_program(
        "let a: int = 1; a = a + 1; print(a); if a > 1 { a; } else { } while false { } a;",
    )
    .unwrap();
    assert_eq!(tree.stmts.len(), 6);
    assert_eq!(tree.stmts[0], Stmt::Decl("a".to_string(), Some(Type::Int), Expr::Int("1".to_string())));
    assert!(matches!(tree.stmts[1], Stmt::Mutation(_, _)));
    assert!(matches!(tree.stmts[2], Stmt::Print(_)));
    assert!(matches!(tree.stmts[3], Stmt::IfElse(_, _, _)));
    assert!(matches!(tree.stmts[4], Stmt::While(_, _)));
    assert!(matches!(tree.stmts[5], Stmt::Expr(_)));
}

#[test]
fn parser_errors() {
    assert_eq!(parse_program("let = 1;").err(), Some(ParseError::UnexpectedToken(1)));
    assert_eq!(parse_program("let a: void = 1;").err(), Some(ParseError::UnexpectedToken(3)));
    assert_eq!(parse_program("1 + ").err(), Some(ParseError::UnexpectedEnd));
    assert_eq!(parse_program("1 2").err(), Some(ParseError::UnexpectedToken(1)));
    assert_eq!(parse_program("if true { 1 }").err(), Some(ParseError::UnexpectedToken(4)));
    assert_eq!(parse_program("while true { ").err(), Some(ParseError::UnexpectedEnd));
    assert_eq!(parse_program("(1").err(), Some(ParseError::UnexpectedEnd));
    assert_eq!(parse_program("print 1;").err(), Some(ParseError::UnexpectedToken(1)));
    assert_eq!(
        parse_program("\"open").err(),
        Some(ParseError::Lex(LexError::UnterminatedLiteral(0)))
    );
}

#[test]
fn parser_empty_program() {
    let tree = parse_program("  // nothing\n").unwrap();
    assert!(tree.stmts.is_empty());
    let tree = parse_tokens(&vec![]).unwrap();
    assert!(tree.stmts.is_empty());
}

#[test]
fn parser_final_semicolon_is_optional_only_at_the_end() {
    assert!(parse_program("1 + 1").is_ok());
    assert!(parse_program("1 + 1;").is_ok());
    assert_eq!(parse_program("1 + 1 2;").err(), Some(ParseError::UnexpectedToken(3)));
}

#[test]
fn parser_declaration_without_type() {
    let tree = parse_program("let n = 10;").unwrap();
    assert_eq!(tree.stmts, vec![Stmt::Decl("n".to_string(), None, Expr::Int("10".to_string()))]);
    assert_eq!(parse_program("let n 10;").err(), Some(ParseError::UnexpectedToken(2)));
    assert_eq!(parse_program("let n").err(), Some(ParseError::UnexpectedEnd));
}

#[test]
fn lexer_type_names_agree_with_type_from_str() {
    let names = ["int", "float", "bool", "string", "char"];
    let toks = tokenize(&names.join(" ")).unwrap();
    for (name, tok) in names.iter().zip(toks.iter()) {
        assert_eq!(tok, &Tok::TypeName(Type::from_str(name).unwrap()));
    }
    let others = ["void", "integer", "Int"];
    let toks = tokenize(&others.join(" ")).unwrap();
    for (word, tok) in others.iter().zip(toks.iter()) {
        assert_eq!(tok, &Tok::Id(word.to_string()));
    }
}
