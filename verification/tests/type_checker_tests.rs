use imp_interpreter::ast::{BinaryOp, Expr, Stmt, SyntaxTree, UnaryOp};
use imp_interpreter::parser::parse_program;
use imp_interpreter::type_checker::value_type::{Operator, Type};
use imp_interpreter::type_checker::{check_binary, check_unary, ImpTypeChecker, TypeError};

fn check(program: &str) -> Result<(), TypeError> {
    let tree = parse_program(program).unwrap();
    let mut checker = ImpTypeChecker::new();
    checker.check(&tree)
}

#[test]
fn type_pow() {
    assert_eq!(Type::Int.pow(Type::Int), Type::Int);
    assert_eq!(Type::Float.pow(Type::Float), Type::Float);
    assert_eq!(Type::Int.pow(Type::Float), Type::Float);
    assert_eq!(Type::Float.pow(Type::Int), Type::Float);
}

#[test]
fn checker_coerces_ints_and_floats_in_pow_and_comparisons() {
    assert_eq!(check("let x: float = 2 ^ 0.5; let b: bool = 1 < 2.5;"), Ok(()));
}

#[test]
fn type_cmp_type() {
    assert_eq!(Type::Int.cmp_type(Type::Int), Type::Bool);
    assert_eq!(Type::Float.cmp_type(Type::Float), Type::Bool);
    assert_eq!(Type::Int.cmp_type(Type::Float), Type::Bool);
}

#[test]
fn type_concat() {
    assert_eq!(Type::String.concat(Type::String), Type::String);
    assert_eq!(Type::String.concat(Type::Char), Type::String);
    assert_eq!(Type::Char.concat(Type::String), Type::String);
    assert_eq!(Type::Char.concat(Type::Char), Type::String);
}

#[test]
fn type_cast() {
    assert_eq!(Type::Float.cast(Type::Int), Type::Int);
    assert_eq!(Type::Int.cast(Type::Float), Type::Float);
}

#[test]
fn type_arithmetic_coerces_int_to_float() {
    assert_eq!(Type::Int.add(Type::Int), Type::Int);
    assert_eq!(Type::Int.sub(Type::Float), Type::Float);
    assert_eq!(Type::Float.mul(Type::Int), Type::Float);
    assert_eq!(Type::Float.div(Type::Float), Type::Float);
    assert_eq!(Type::Int.rem(Type::Int), Type::Int);
    assert_eq!(Type::Int.neg(), Type::Int);
    assert_eq!(Type::Bool.not(), Type::Bool);
    assert_eq!(Type::Bool.bitand(Type::Bool), Type::Bool);
    assert_eq!(Type::Bool.bitor(Type::Bool), Type::Bool);
}

#[test]
fn type_names_round_trip() {
    for t in [Type::Int, Type::Float, Type::Bool, Type::String, Type::Char] {
        assert_eq!(Type::from_str(t.name()), Some(t));
    }
    assert_eq!(Type::Void.name(), "void");
    assert_eq!(Type::default(), Type::Void);
}

#[test]
fn checker_accepts_well_typed_programs() {
    assert_eq!(check("let a: int = 2; let b: int = a * 3 + 1; b = b - a;"), Ok(()));
    assert_eq!(check("let x: float = 1 + 2.5;"), Ok(()));
    assert_eq!(check("let s: string = \"a\" : 'b';"), Ok(()));
    assert_eq!(check("let i: int = 0; while i < 10 { i = i + 1; }"), Ok(()));
    assert_eq!(check("if 3 > 2 { } else { }"), Ok(()));
    assert_eq!(check("let n: int = int(2.5); let f: float = float(n);"), Ok(()));
    assert_eq!(check("let b: bool = not (1 == 1) and true;"), Ok(()));
    assert_eq!(check("to_str(undefined_name);"), Ok(()));
    assert_eq!(check("print(undefined_name);"), Ok(()));
}

#[test]
fn checker_rejects_mismatched_declaration() {
    assert_eq!(
        check("let a: int = true;"),
        Err(TypeError::MismatchedTypes(Type::Int, Type::Bool))
    );
}

#[test]
fn checker_rejects_mismatched_assignment() {
    assert_eq!(
        check("let a: int = 1; a = 'c';"),
        Err(TypeError::MismatchedTypes(Type::Int, Type::Char))
    );
}

#[test]
fn checker_rejects_unknown_variables() {
    assert_eq!(
        check("a + 1;"),
        Err(TypeError::UnknownVariable("a".to_string()))
    );
    assert_eq!(
        check("b = 1;"),
        Err(TypeError::UnknownVariable("b".to_string()))
    );
}

#[test]
fn checker_rejects_operator_mismatches() {
    assert_eq!(
        check("1 + true;"),
        Err(TypeError::OperatorMismatch(Operator::Add, Type::Int, Type::Bool))
    );
    assert_eq!(
        check("2 ^ true;"),
        Err(TypeError::OperatorMismatch(Operator::Pow, Type::Int, Type::Bool))
    );
    assert_eq!(
        check("true or 1;"),
        Err(TypeError::OperatorMismatch(Operator::BitOr, Type::Bool, Type::Int))
    );
    assert_eq!(
        check("-\"s\";"),
        Err(TypeError::UnaryMismatch(Operator::Neg, Type::String))
    );
    assert_eq!(check("not 1;"), Err(TypeError::UnaryMismatch(Operator::Not, Type::Int)));
    assert_eq!(check("1 < 'a';"), Err(TypeError::CannotCompare(Type::Int, Type::Char)));
    assert_eq!(check("1 == 'a';"), Err(TypeError::CannotCompare(Type::Int, Type::Char)));
    assert_eq!(check("\"a\" : 1;"), Err(TypeError::CannotConcat(Type::String, Type::Int)));
    assert_eq!(check("int(1);"), Err(TypeError::CannotConvert(Type::Int, Type::Int)));
}

#[test]
fn checker_rejects_non_bool_conditions() {
    assert_eq!(
        check("if 1 { }"),
        Err(TypeError::MismatchedTypes(Type::Bool, Type::Int))
    );
    assert_eq!(
        check("while 'c' { }"),
        Err(TypeError::MismatchedTypes(Type::Bool, Type::Char))
    );
}

#[test]
fn checker_does_not_look_inside_bodies() {
    assert_eq!(check("if true { let a: int = true; }"), Ok(()));
}

#[test]
fn checker_first_error_wins() {
    assert_eq!(
        check("let a: int = 1; a + true; b;"),
        Err(TypeError::OperatorMismatch(Operator::Add, Type::Int, Type::Bool))
    );
}

#[test]
fn checker_keeps_declarations_across_calls() {
    let mut checker = ImpTypeChecker::new();
    assert_eq!(checker.check(&parse_program("let a: int = 1;").unwrap()), Ok(()));
    assert_eq!(checker.check(&parse_program("a + 1;").unwrap()), Ok(()));
    let tree = SyntaxTree { stmts: vec![Stmt::Expr(Expr::Id("a".to_string()))] };
    assert_eq!(checker.check(&tree), Ok(()));
    assert_eq!(checker.check_expr(&Expr::Id("a".to_string())), Ok(Type::Int));
}

#[test]
fn checker_on_hand_built_trees() {
    let checker = ImpTypeChecker::new();
    let e = Expr::Binary(
        BinaryOp::Concat,
        Box::new(Expr::Str("\"a\"".to_string())),
        Box::new(Expr::ToStr(Box::new(Expr::Int("1".to_string())))),
    );
    assert_eq!(checker.check_expr(&e), Ok(Type::String));
    let e = Expr::Cast(Type::Int, Box::new(Expr::Float("2.5".to_string())));
    assert_eq!(checker.check_expr(&e), Ok(Type::Int));
    let e = Expr::Unary(UnaryOp::Neg, Box::new(Expr::Paren(Box::new(Expr::Float("1.0".to_string())))));
    assert_eq!(checker.check_expr(&e), Ok(Type::Float));
}

#[test]
fn checker_binary_and_unary_tables() {
    assert_eq!(check_binary(BinaryOp::Mod, Type::Int, Type::Float), Ok(Type::Float));
    assert_eq!(check_binary(BinaryOp::Ge, Type::Float, Type::Float), Ok(Type::Bool));
    assert_eq!(check_binary(BinaryOp::Ne, Type::Void, Type::Void), Ok(Type::Bool));
    assert_eq!(
        check_binary(BinaryOp::Div, Type::Char, Type::Int),
        Err(TypeError::OperatorMismatch(Operator::Div, Type::Char, Type::Int))
    );
    assert_eq!(check_unary(UnaryOp::Neg, Type::Float), Ok(Type::Float));
    assert_eq!(
        check_unary(UnaryOp::Not, Type::Void),
        Err(TypeError::UnaryMismatch(Operator::Not, Type::Void))
    );
}

#[test]
fn checker_declaration_without_type_takes_its_value_type() {
    let tree = parse_program("let n = 10; let x = 1.5; n = 2; x = 2.5;").unwrap();
    let mut checker = ImpTypeChecker::new();
    assert_eq!(checker.check(&tree), Ok(()));
    assert_eq!(checker.check_expr(&Expr::Id("x".to_string())), Ok(Type::Float));
    assert_eq!(
        check("let n = 10; n = true;"),
        Err(TypeError::MismatchedTypes(Type::Int, Type::Bool))
    );
}
