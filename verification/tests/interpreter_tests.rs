use imp_interpreter::interpreter::value::{FloatArith, RuntimeError, Value};
use imp_interpreter::interpreter::ImpInterpreter;
use imp_interpreter::type_checker::ImpTypeChecker;
use imp_interpreter::parser::ParseError;
use imp_interpreter::parser::lexer::LexError;
use imp_interpreter::type_checker::value_type::{Operator, Type};

#[derive(Debug, Clone, Copy, PartialEq)]
struct F32(f32);

impl FloatArith for F32 {
    fn parse_float(text: &str) -> Option<Self> {
        text.parse::<f32>().ok().map(F32)
    }
    fn from_int(i: i32) -> Self {
        F32(i as f32)
    }
    fn to_int(&self) -> i32 {
        self.0 as i32
    }
    fn float_add(&self, rhs: &Self) -> Self {
        F32(self.0 + rhs.0)
    }
    fn float_sub(&self, rhs: &Self) -> Self {
        F32(self.0 - rhs.0)
    }
    fn float_mul(&self, rhs: &Self) -> Self {
        F32(self.0 * rhs.0)
    }
    fn float_div(&self, rhs: &Self) -> Self {
        F32(self.0 / rhs.0)
    }
    fn float_rem(&self, rhs: &Self) -> Self {
        F32(self.0 % rhs.0)
    }
    fn float_pow(&self, rhs: &Self) -> Self {
        F32(self.0.powf(rhs.0))
    }
    fn float_neg(&self) -> Self {
        F32(-self.0)
    }
    fn float_eq(&self, rhs: &Self) -> bool {
        self.0 == rhs.0
    }
    fn float_lt(&self, rhs: &Self) -> bool {
        self.0 < rhs.0
    }
    fn float_le(&self, rhs: &Self) -> bool {
        self.0 <= rhs.0
    }
    fn float_text(&self) -> String {
        self.0.to_string()
    }
}

type Interp = ImpInterpreter<F32>;
type V = Value<F32>;

fn run(program: &str) -> (Interp, Result<V, RuntimeError>) {
    let ast = Interp::parse(program).unwrap();
    let mut interpreter = Interp::new();
    let res = interpreter.interpret(&ast);
    (interpreter, res)
}

fn value_of(program: &str) -> V {
    let (_, res) = run(program);
    res.unwrap()
}

#[test]
fn mod_test_add() {
    let program = "
        4+(4+4)
        ";
    assert_eq!(Value::Int(12), value_of(program))
}

#[test]
fn mod_test_sub() {
    let program = "
        4-(4-5)
        ";
    assert_eq!(Value::Int(5), value_of(program))
}

#[test]
fn mod_test_neg() {
    let program = "
        -(-4)
        ";
    assert_eq!(Value::Int(4), value_of(program))
}

#[test]
fn mod_test_mul() {
    let program = "
        2*(3*3)
        ";
    assert_eq!(Value::Int(18), value_of(program))
}

#[test]
fn mod_test_div() {
    let program = "
        (18/2)/2
        ";
    assert_eq!(Value::Int(4), value_of(program))
}

#[test]
fn mod_test_mod() {
    let program = "
        16 mod 2
        ";
    assert_eq!(Value::Int(0), value_of(program))
}

#[test]
fn mod_test_pow() {
    let program = "
        2^(2^3)
        ";
    assert_eq!(Value::Int(256), value_of(program))
}

#[test]
fn mod_test_precedence() {
    let program = "
         5-2*10/2
        ";
    assert_eq!(Value::Int(-5), value_of(program))
}

#[test]
fn test_assign() {
    let program = "
         let a: int = 2;
        ";
    let (interpreter, res) = run(program);
    assert_eq!(Some(&Value::Int(2)), interpreter.variable("a"));
    assert_eq!(Value::Void, res.unwrap());
}

#[test]
fn mod_test_var_exp() {
    let program = "
         let a: int = 2; print(a);
        ";
    let (interpreter, res) = run(program);
    assert_eq!(Some(&Value::Int(2)), interpreter.variable("a"));
    assert_eq!(Value::Void, res.unwrap());
    assert_eq!(interpreter.output(), &vec!["2".to_string()]);
}

#[test]
#[should_panic(expected = "Unknown variable a")]
fn mod_test_undeclared_var() {
    let program = "
         a
        ";
    let (interpreter, res) = run(program);
    match res {
        Err(RuntimeError::UnknownVariable(name)) => panic!("Unknown variable {}", name),
        other => {
            assert_eq!(None, interpreter.variable("a"));
            assert_eq!(Value::Void, other.unwrap());
        }
    }
}

#[test]
fn mod_test_program() {
    let program = "
         let base: int = 5;
         let height: int = 10;
         let area: int = base * height;
         print(area);
        ";
    let (interpreter, res) = run(program);
    assert_eq!(Some(&Value::Int(5)), interpreter.variable("base"));
    assert_eq!(Some(&Value::Int(10)), interpreter.variable("height"));
    assert_eq!(Some(&Value::Int(50)), interpreter.variable("area"));
    assert_eq!(Value::Void, res.unwrap());
    assert_eq!(interpreter.output(), &vec!["50".to_string()]);
}

#[test]
fn test_if_true() {
    let program = "
         if 3 > 2 {
           let branch: int = true;
         }
        ";
    let (interpreter, res) = run(program);
    assert_eq!(Some(&Value::Bool(true)), interpreter.variable("branch"));
    assert_eq!(Value::Void, res.unwrap());
}

#[test]
fn test_if_false() {
    let program = "
         if 3 < 2 {
           let branch: int = true;
         }
        ";
    let (interpreter, res) = run(program);
    assert_eq!(None, interpreter.variable("branch"));
    assert_eq!(Value::Void, res.unwrap());
}

#[test]
fn test_while_false() {
    let program = "
        let i: int = 0;
         while i > 2 {
           i = i + 1;
         }
        ";
    let (interpreter, res) = run(program);
    assert_eq!(None, interpreter.variable("a"));
    assert_eq!(Value::Void, res.unwrap());
}

#[test]
fn test_while_true() {
    let program = "
        let i: int = 0;
         while i < 2 {
           i = i + 1;
         }
        ";
    let (interpreter, res) = run(program);
    assert_eq!(Some(&Value::Int(2)), interpreter.variable("i"));
    assert_eq!(Value::Void, res.unwrap());
}

#[test]
fn test_if_else_true() {
    let program = "
         if 3 > 2 {
           let branch: int = true;
         } else {
           let branch: int = false;
         }
        ";
    let (interpreter, res) = run(program);
    assert_eq!(Some(&Value::Bool(true)), interpreter.variable("branch"));
    assert_eq!(Value::Void, res.unwrap());
}

#[test]
fn test_if_else_false() {
    let program = "
         if 3 < 2 {
           let branch: int = true;
         } else {
           let branch: int = false;
         }
        ";
    let (interpreter, res) = run(program);
    assert_eq!(Some(&Value::Bool(false)), interpreter.variable("branch"));
    assert_eq!(Value::Void, res.unwrap());
}

#[test]
fn test_to_str() {
    let program = "
         to_str(123);
        ";
    let (_, res) = run(program);
    assert_eq!(Value::String("123".to_string()), res.unwrap());
}

#[test]
fn test_str_concat() {
    let program = "
         \"Hello, \" : \"world!\"
        ";
    let (_, res) = run(program);
    assert_eq!(Value::String("Hello, world!".to_string()), res.unwrap());
}

#[test]
fn test_single_line_comment() {
    let program = "
         // This is a single line comment
         let a: int = 5; // This is another comment
        ";
    let (interpreter, res) = run(program);
    assert_eq!(Some(&Value::Int(5)), interpreter.variable("a"));
    assert_eq!(Value::Void, res.unwrap());
}

#[test]
fn test_multi_line_comment() {
    let program = "
         /* This is a multi-line comment
            let b = 10;
         */
         let a: int = 5; /* Another comment */
        ";
    let (interpreter, res) = run(program);
    assert_eq!(Some(&Value::Int(5)), interpreter.variable("a"));
    assert_eq!(None, interpreter.variable("b"));
    assert_eq!(Value::Void, res.unwrap());
}

#[test]
fn test_string_escaping() {
    let program = r#"
         let str: string = "Hello\nWorld\t!";
        "#;
    let (interpreter, res) = run(program);
    assert_eq!(
        Some(&Value::String("Hello\nWorld\t!".to_string())),
        interpreter.variable("str")
    );
    assert_eq!(Value::Void, res.unwrap());
}

#[test]
fn test_char_escaping() {
    let program = r#"
         let ch: char = '\n';
        "#;
    let (interpreter, res) = run(program);
    assert_eq!(Some(&Value::Char('\n')), interpreter.variable("ch"));
    assert_eq!(Value::Void, res.unwrap());
}

#[test]
fn interpreter_integer_overflow_is_an_error() {
    let (_, res) = run("2147483647 + 1");
    assert_eq!(res, Err(RuntimeError::Overflow(Operator::Add)));
    let (_, res) = run("2 ^ 31");
    assert_eq!(res, Err(RuntimeError::Overflow(Operator::Pow)));
    assert_eq!(value_of("-2 ^ 31"), Value::Int(i32::MIN));
    let (_, res) = run("-(-2 ^ 31)");
    assert_eq!(res, Err(RuntimeError::Overflow(Operator::Neg)));
}

#[test]
fn interpreter_division_by_zero_is_an_error() {
    let (_, res) = run("1 / 0");
    assert_eq!(res, Err(RuntimeError::DivisionByZero(Operator::Div)));
    let (_, res) = run("1 mod 0");
    assert_eq!(res, Err(RuntimeError::DivisionByZero(Operator::Rem)));
}

#[test]
fn interpreter_division_truncates_towards_zero() {
    assert_eq!(value_of("-7 / 2"), Value::Int(-3));
    assert_eq!(value_of("-7 mod 2"), Value::Int(-1));
    assert_eq!(value_of("7 mod -2"), Value::Int(1));
}

#[test]
fn interpreter_pow_edge_cases() {
    assert_eq!(value_of("0 ^ 0"), Value::Int(1));
    assert_eq!(value_of("0 ^ 5"), Value::Int(0));
    assert_eq!(value_of("-1 ^ 3"), Value::Int(-1));
    assert_eq!(value_of("-1 ^ 4"), Value::Int(1));
    assert_eq!(value_of("3 ^ 4"), Value::Int(81));
    let (_, res) = run("2 ^ -1");
    assert_eq!(res, Err(RuntimeError::NegativeExponent));
}

#[test]
fn interpreter_type_mismatches_are_errors() {
    let (_, res) = run("1 + true");
    assert_eq!(
        res,
        Err(RuntimeError::OperatorMismatch(Operator::Add, Type::Int, Type::Bool))
    );
    let (_, res) = run("2 ^ true");
    assert_eq!(
        res,
        Err(RuntimeError::OperatorMismatch(Operator::Pow, Type::Int, Type::Bool))
    );
    let (_, res) = run("1 < 'a'");
    assert_eq!(res, Err(RuntimeError::CannotCompare(Type::Int, Type::Char)));
    let (_, res) = run("not 1");
    assert_eq!(res, Err(RuntimeError::UnaryMismatch(Operator::Not, Type::Int)));
    let (_, res) = run("-true");
    assert_eq!(res, Err(RuntimeError::UnaryMismatch(Operator::Neg, Type::Bool)));
    let (_, res) = run("1 == true");
    assert_eq!(res, Err(RuntimeError::CannotCompare(Type::Int, Type::Bool)));
    let (_, res) = run("\"a\" < \"b\"");
    assert_eq!(res, Err(RuntimeError::CannotCompare(Type::String, Type::String)));
    let (_, res) = run("1 and true");
    assert_eq!(
        res,
        Err(RuntimeError::OperatorMismatch(Operator::BitAnd, Type::Int, Type::Bool))
    );
    let (_, res) = run("int(1)");
    assert_eq!(res, Err(RuntimeError::CannotConvert(Type::Int, Type::Int)));
}

#[test]
fn interpreter_unknown_variable_in_assignment() {
    let (_, res) = run("x = 1;");
    assert_eq!(res, Err(RuntimeError::UnknownVariable("x".to_string())));
}

#[test]
fn interpreter_booleans_and_equality() {
    assert_eq!(value_of("true and false"), Value::Bool(false));
    assert_eq!(value_of("true or false"), Value::Bool(true));
    assert_eq!(value_of("not false"), Value::Bool(true));
    assert_eq!(value_of("\"a\" == \"a\""), Value::Bool(true));
    assert_eq!(value_of("'a' != 'b'"), Value::Bool(true));
    assert_eq!(value_of("3 <= 3"), Value::Bool(true));
    assert_eq!(value_of("3 >= 4"), Value::Bool(false));
}

#[test]
fn interpreter_floats_go_through_the_float_arithmetic() {
    assert_eq!(value_of("4.5 / 1.5"), Value::Float(F32(3.0)));
    assert_eq!(value_of("float(2)"), Value::Float(F32(2.0)));
    assert_eq!(value_of("int(2.7)"), Value::Int(2));
    assert_eq!(value_of("2.0 ^ 3.0"), Value::Float(F32(8.0)));
    assert_eq!(value_of("1.5 < 2.5"), Value::Bool(true));
    assert_eq!(value_of("to_str(2.5)"), Value::String("2.5".to_string()));
    assert_eq!(value_of("3000000000"), Value::Float(F32(3000000000.0)));
}

#[test]
fn interpreter_concat_prints_any_values() {
    assert_eq!(value_of("\"n=\" : 5"), Value::String("n=5".to_string()));
    assert_eq!(value_of("'x' : true"), Value::String("xtrue".to_string()));
    assert_eq!(value_of("to_str(-42)"), Value::String("-42".to_string()));
}

#[test]
fn interpreter_if_else_value_is_last_statement_of_branch() {
    assert_eq!(value_of("if true { 1; 2; } else { 3; }"), Value::Int(2));
    assert_eq!(value_of("if false { 1; } else { }"), Value::Void);
}

#[test]
fn interpreter_non_bool_condition_skips_the_body() {
    let (interpreter, res) = run("let x: int = 0; if 1 { x = 5; } while 2 { x = 6; }");
    assert_eq!(res, Ok(Value::Void));
    assert_eq!(interpreter.variable("x"), Some(&Value::Int(0)));
}

#[test]
fn interpreter_loop_fuel_runs_out() {
    let ast = Interp::parse("let i: int = 0; while i < 10 { i = i + 1; }").unwrap();
    let mut interpreter = Interp::new();
    assert_eq!(interpreter.run_stmts(3, &ast.stmts), Err(RuntimeError::OutOfFuel));
    assert_eq!(interpreter.variable("i"), Some(&Value::Int(3)));
    let mut interpreter = Interp::new();
    assert_eq!(interpreter.run_stmts(10, &ast.stmts), Ok(Value::Void));
    assert_eq!(interpreter.variable("i"), Some(&Value::Int(10)));
}

#[test]
fn interpreter_prints_in_order() {
    let (interpreter, res) =
        run("let i: int = 0; while i < 3 { print(i); i = i + 1; } print('c'); print(\"s\");");
    assert_eq!(res, Ok(Value::Void));
    let out: Vec<String> = vec!["0", "1", "2", "c", "s"].into_iter().map(String::from).collect();
    assert_eq!(interpreter.output(), &out);
}

#[test]
fn interpreter_res_keeps_the_last_value() {
    let ast = Interp::parse("1 + 1").unwrap();
    let mut interpreter = Interp::new();
    assert_eq!(interpreter.res(), &Value::Void);
    interpreter.interpret(&ast).unwrap();
    assert_eq!(interpreter.res(), &Value::Int(2));
}

#[test]
fn interpreter_invalid_escape_is_an_error() {
    let (_, res) = run(r#""\q""#);
    assert_eq!(res, Err(RuntimeError::InvalidLiteral("\"\\q\"".to_string())));
}

#[test]
fn interpreter_parse_reports_lexical_errors() {
    assert_eq!(
        Interp::parse("\"abc").err(),
        Some(ParseError::Lex(LexError::UnterminatedLiteral(0)))
    );
}

#[test]
fn readme_example_program() {
    let program = "
        let n = 10;
        let i = 0;
        let sum = 0;

        while i < n {
            sum = sum + i;
            i = i + 1;
        }

        print(\"The sum is: \");
        print(sum);
    ";
    let (interpreter, res) = run(program);
    assert_eq!(res, Ok(Value::Void));
    assert_eq!(interpreter.variable("sum"), Some(&Value::Int(45)));
    assert_eq!(
        interpreter.output(),
        &vec!["The sum is: ".to_string(), "45".to_string()]
    );
}

#[test]
fn interpreter_assignment_reads_back() {
    let (interpreter, res) = run("let a: int = 1; a = a + 4; a");
    assert_eq!(res, Ok(Value::Int(5)));
    assert_eq!(interpreter.variable("a"), Some(&Value::Int(5)));
}

#[test]
fn interpreter_more_fuel_same_run() {
    let ast = Interp::parse("let i: int = 0; while i < 4 { print(i); i = i + 1; } i").unwrap();
    let mut small = Interp::new();
    let mut large = Interp::new();
    let r1 = small.run_stmts(4, &ast.stmts);
    let r2 = large.run_stmts(1000, &ast.stmts);
    assert_eq!(r1, Ok(Value::Int(4)));
    assert_eq!(r1, r2);
    assert_eq!(small.output(), large.output());
    assert_eq!(small.variable("i"), large.variable("i"));
}

#[test]
fn interpreter_run_only_appends_output() {
    let ast = Interp::parse("print(1); print(2); 1 / 0;").unwrap();
    let mut interpreter = Interp::new();
    let res = interpreter.interpret(&ast);
    assert_eq!(res, Err(RuntimeError::DivisionByZero(Operator::Div)));
    assert_eq!(interpreter.output(), &vec!["1".to_string(), "2".to_string()]);
    let more = Interp::parse("print(3);").unwrap();
    assert_eq!(interpreter.interpret(&more), Ok(Value::Void));
    assert_eq!(
        interpreter.output(),
        &vec!["1".to_string(), "2".to_string(), "3".to_string()]
    );
}

#[test]
fn interpreter_mixes_ints_and_floats_in_arithmetic() {
    assert_eq!(value_of("1 + 2.5"), Value::Float(F32(3.5)));
    assert_eq!(value_of("2.5 * 2"), Value::Float(F32(5.0)));
    assert_eq!(value_of("7 / 2.0"), Value::Float(F32(3.5)));
    assert_eq!(value_of("5.5 - 1"), Value::Float(F32(4.5)));
    assert_eq!(value_of("7 mod 2.5"), Value::Float(F32(2.0)));
    let (interpreter, res) = run("let x: float = 1 + 2.5; x = x * 2;");
    assert_eq!(res, Ok(Value::Void));
    assert_eq!(interpreter.variable("x"), Some(&Value::Float(F32(7.0))));
}

#[test]
fn typed_programs_fail_only_with_arithmetic_faults() {
    let program = "let a: int = 2147483647; let b: float = 1 + 0.5; let c: string = to_str(b) : 'x'; a + 1";
    let tree = Interp::parse(program).unwrap();
    let mut checker = ImpTypeChecker::new();
    assert_eq!(checker.check(&tree), Ok(()));
    let (interpreter, res) = run(program);
    assert_eq!(res, Err(RuntimeError::Overflow(Operator::Add)));
    assert_eq!(interpreter.variable("b"), Some(&Value::Float(F32(1.5))));
    assert_eq!(interpreter.variable("c"), Some(&Value::String("1.5x".to_string())));
    let program = "let d: int = 7; d / (d - 7)";
    let mut checker = ImpTypeChecker::new();
    assert_eq!(checker.check(&Interp::parse(program).unwrap()), Ok(()));
    assert_eq!(run(program).1, Err(RuntimeError::DivisionByZero(Operator::Div)));
}

#[test]
fn interpreter_mixes_ints_and_floats_in_pow_and_comparisons() {
    assert_eq!(value_of("4 ^ 0.5"), Value::Float(F32(2.0)));
    assert_eq!(value_of("2.0 ^ 3"), Value::Float(F32(8.0)));
    assert_eq!(value_of("1 < 2.5"), Value::Bool(true));
    assert_eq!(value_of("3.5 >= 4"), Value::Bool(false));
    assert_eq!(value_of("2 <= 2.0"), Value::Bool(true));
}

#[test]
fn value_from_str_reads_signed_ints() {
    assert_eq!(V::from_str(&"-5".to_string()), Ok(Value::Int(-5)));
    assert_eq!(V::from_str(&"+7".to_string()), Ok(Value::Int(7)));
    assert_eq!(V::from_str(&"-2147483648".to_string()), Ok(Value::Int(i32::MIN)));
    assert_eq!(V::from_str(&"2147483647".to_string()), Ok(Value::Int(i32::MAX)));
    assert_eq!(V::from_str(&"2147483648".to_string()), Ok(Value::Float(F32(2147483648.0))));
    assert_eq!(V::from_str(&"-".to_string()), Err(RuntimeError::InvalidLiteral("-".to_string())));
}

#[test]
fn float_declaration_binds_and_prints() {
    let (interpreter, res) = run("let x: float = 1.5; print(x); x");
    assert_eq!(res, Ok(Value::Float(F32(1.5))));
    assert_eq!(interpreter.output(), &vec!["1.5".to_string()]);
    assert_eq!(interpreter.res(), &Value::Float(F32(1.5)));
}

#[test]
fn checker_type_matches_interpreter_value() {
    let program = "let a = 1.5; let b: float = a * 2.0; let n = 3; b < float(n)";
    let ast = Interp::parse(program).unwrap();
    let mut tc = ImpTypeChecker::new();
    let mut last = Type::Void;
    for s in ast.stmts.iter() {
        last = tc.check_stmt(s).unwrap();
    }
    let mut interpreter = Interp::new();
    let v = interpreter.interpret(&ast).unwrap();
    assert_eq!(last, Type::Bool);
    assert_eq!(v.value_type(), last);
    assert_eq!(v, Value::Bool(false));
}

#[test]
fn concat_keeps_the_other_operand_around_a_float() {
    assert_eq!(value_of("\"x = \" : 1.5"), Value::String("x = 1.5".to_string()));
    assert_eq!(value_of("2.5 : \"!\""), Value::String("2.5!".to_string()));
}

#[test]
fn mismatched_equality_and_negative_exponent_are_refused() {
    let (_, res) = run("1 == true");
    assert_eq!(res, Err(RuntimeError::CannotCompare(Type::Int, Type::Bool)));
    let (_, res) = run("2 ^ (0 - 1)");
    assert_eq!(res, Err(RuntimeError::NegativeExponent));
    assert_eq!(V::char_from_unescaped(&"'a'".to_string(), Some("'a'".to_string())), Ok(Value::Char('a')));
    assert_eq!(
        V::char_from_unescaped(&"'a'".to_string(), None),
        Err(RuntimeError::InvalidLiteral("'a'".to_string()))
    );
}
