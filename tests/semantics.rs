use qalo::environment::Environment;
use qalo::evaluator::Evaluator;
use qalo::object::{BuiltinFunction, EvalError, Object};
use qalo::ops::{apply_binary, apply_unary, call_builtin, index_value};
use qalo::token::TokenKind;

fn run(input: &str) -> Result<Vec<Object>, EvalError> {
    Evaluator::new(input).eval_program()
}

#[test]
fn division_and_modulo_by_zero_fail_for_any_operand() {
    for lhs in [0, 1, -1, 7, -7, i32::MAX, i32::MIN] {
        let r = apply_binary(TokenKind::Slash, Object::IntegerValue(lhs), Object::IntegerValue(0));
        assert!(matches!(r, Err(EvalError::DivisionByZero)));
        let r = apply_binary(
            TokenKind::Percentage,
            Object::IntegerValue(lhs),
            Object::IntegerValue(0),
        );
        assert!(matches!(r, Err(EvalError::ModuloByZero)));
    }
    assert!(matches!(run("-5 / 0"), Err(EvalError::DivisionByZero)));
    assert!(matches!(run("5 % (1 - 1)"), Err(EvalError::ModuloByZero)));
}

#[test]
fn integer_arithmetic_truncates_and_wraps() {
    let r = run("-7 / 2; 7 / -2; -7 % 2; 7 % -2; 2147483647 + 1; 0 - 2147483647 - 1 - 1; 65536 * 65536; 10 % 3").unwrap();
    assert_eq!(
        r,
        vec![
            Object::IntegerValue(-3),
            Object::IntegerValue(-3),
            Object::IntegerValue(-1),
            Object::IntegerValue(1),
            Object::IntegerValue(i32::MIN),
            Object::IntegerValue(i32::MAX),
            Object::IntegerValue(0),
            Object::IntegerValue(1),
        ]
    );
    let r = apply_binary(
        TokenKind::Slash,
        Object::IntegerValue(i32::MIN),
        Object::IntegerValue(-1),
    );
    assert_eq!(r.unwrap(), Object::IntegerValue(i32::MIN));
    assert_eq!(
        apply_unary(TokenKind::Minus, Object::IntegerValue(i32::MIN)).unwrap(),
        Object::IntegerValue(i32::MIN)
    );
}

#[test]
fn shadowing_keeps_the_outer_binding() {
    let r = run("let x = 2; { let x = 3; x; } x;").unwrap();
    assert_eq!(r[1], Object::IntegerValue(3));
    assert_eq!(r[2], Object::IntegerValue(2));
}

#[test]
fn environment_set_is_local() {
    let mut env = Environment::new();
    env.set(0, "x".to_owned(), Object::IntegerValue(1));
    let inner = env.enclose(0);
    env.set(inner, "x".to_owned(), Object::IntegerValue(2));
    assert_eq!(env.get(inner, "x").unwrap(), Object::IntegerValue(2));
    assert_eq!(env.get(0, "x").unwrap(), Object::IntegerValue(1));
    assert!(matches!(env.get(0, "y"), Err(EvalError::IdentifierNotFound(n)) if n == "y"));
    env.set(0, "x".to_owned(), Object::IntegerValue(5));
    assert_eq!(env.get(0, "x").unwrap(), Object::IntegerValue(5));
}

#[test]
fn closures_capture_their_defining_scope() {
    let r = run("let newAdder = fn(x) { fn(y) { x + y } }; let addTwo = newAdder(2); addTwo(2);")
        .unwrap();
    assert_eq!(r[2], Object::IntegerValue(4));
}

#[test]
fn return_at_top_level_is_rejected() {
    assert!(matches!(run("return 1;"), Err(EvalError::ReturnOutsideExpression)));
    assert!(matches!(run("{ return 1; }"), Err(EvalError::ReturnOutsideExpression)));
    assert!(matches!(run("{ { 1; return 2; } }"), Err(EvalError::ReturnOutsideExpression)));
}

#[test]
fn return_stops_only_its_function() {
    let r = run(
        "let f = fn() { if true { { return 1; } } 2 }; let g = fn() { f(); 3 }; g(); f();",
    )
    .unwrap();
    assert_eq!(r[2], Object::IntegerValue(3));
    assert_eq!(r[3], Object::IntegerValue(1));
}

#[test]
fn indexing() {
    let r = run("let a = [100,200,300,400]; a[1+1];").unwrap();
    assert_eq!(r[1], Object::IntegerValue(300));
    assert!(matches!(
        run("let a = [100,200,300,400]; a[10];"),
        Err(EvalError::IndexOutOfBounds(4, 10))
    ));
    assert!(matches!(
        run("let a = [1]; a[-1];"),
        Err(EvalError::IndexOutOfBounds(1, -1))
    ));
    assert!(matches!(run("[1][\"a\"]"), Err(EvalError::InvalidIndexType)));
    assert!(matches!(run("let m = {\"a\": 1}; m[0]"), Err(EvalError::InvalidIndexType)));
    assert!(matches!(run("5[0]"), Err(EvalError::InvalidIndexUsage)));
    assert!(matches!(run("let m = {\"a\": 1}; m[\"b\"]"), Err(EvalError::ValueNotFound(k)) if k == "b"));
    assert!(matches!(run("len"), Err(EvalError::IdentifierNotFound(_))));
    let r = index_value(
        Object::MapValue(vec![("a".to_owned(), Object::IntegerValue(7))]),
        Object::StringValue("a".to_owned()),
    );
    assert_eq!(r.unwrap(), Object::IntegerValue(7));
}

#[test]
fn builtins() {
    let r = run("len(\"hello\"); len([1,2,3]); let a = [1,2,3]; append(a, 100, 200); a; rest([1,2,3]); rest([]);")
        .unwrap();
    assert_eq!(r[0], Object::IntegerValue(5));
    assert_eq!(r[1], Object::IntegerValue(3));
    let ints = |v: &[i32]| Object::ArrayValue(v.iter().map(|i| Object::IntegerValue(*i)).collect());
    assert_eq!(r[3], ints(&[1, 2, 3, 100, 200]));
    assert_eq!(r[4], ints(&[1, 2, 3]));
    assert_eq!(r[5], ints(&[2, 3]));
    assert_eq!(r[6], ints(&[]));
    assert_eq!(run("len(\"héllo\")").unwrap()[0], Object::IntegerValue(6));
}

#[test]
fn builtin_errors() {
    assert!(matches!(run("len(1)"), Err(EvalError::UnsupportedArgumentType(_))));
    assert!(matches!(run("len(1, 2)"), Err(EvalError::FunctionCallWrongArity(1, 2))));
    assert!(matches!(run("append([1])"), Err(EvalError::FunctionCallWrongArity(2, 1))));
    assert!(matches!(run("append(1, 2)"), Err(EvalError::UnsupportedArgumentType(_))));
    assert!(matches!(run("rest(\"ab\")"), Err(EvalError::UnsupportedArgumentType(_))));
    let mut out = String::new();
    let r = call_builtin(BuiltinFunction::Rest, vec![], &mut out);
    assert!(matches!(r, Err(EvalError::FunctionCallWrongArity(1, 0))));
}

#[test]
fn print_writes_to_the_output() {
    let mut evaluator = Evaluator::new(
        "println(1, \"a\"); print([true, 2], {\"k\": ()}); print(fn(x, y) { x }); print(len);",
    );
    assert!(matches!(evaluator.eval_program(), Err(EvalError::ParsingError(_))));
    let mut evaluator =
        Evaluator::new("println(1, \"a\"); print([true, 2], {\"k\": 3}); print(fn(x, y) { x });");
    let r = evaluator.eval_program().unwrap();
    assert_eq!(r[0], Object::UnitValue);
    assert_eq!(
        evaluator.take_output(),
        "1\n\"a\"\n[true, 2]{\"k\": 3}fn(x, y) {x}"
    );
    assert_eq!(evaluator.take_output(), "");
}

#[test]
fn evaluation_errors() {
    assert!(matches!(run("y"), Err(EvalError::IdentifierNotFound(n)) if n == "y"));
    assert!(matches!(run("1 + true"), Err(EvalError::TypeMismatch(_))));
    assert!(matches!(run("if 1 { 2 }"), Err(EvalError::TypeMismatch(_))));
    assert!(matches!(run("\"a\" - \"b\""), Err(EvalError::UnsupportedOperator(TokenKind::Minus))));
    assert!(matches!(run("true < false"), Err(EvalError::UnsupportedOperator(TokenKind::LessThan))));
    assert!(matches!(run("-true"), Err(EvalError::UnsupportedOperator(TokenKind::Minus))));
    assert!(matches!(run("5(1)"), Err(EvalError::FunctionNotFound(_))));
    assert!(matches!(run("let f = fn(x) { x }; f(1, 2)"), Err(EvalError::FunctionCallWrongArity(1, 2))));
    assert!(matches!(run("let f = fn() { f() }; f()"), Err(EvalError::CallDepthExceeded)));
    assert!(matches!(run("let = 1;"), Err(EvalError::ParsingError(_))));
}

#[test]
fn strings_and_rendering() {
    let r = run("\"ab\" + \"cd\"").unwrap();
    assert_eq!(r[0], Object::StringValue("abcd".to_owned()));
    assert_eq!(r[0].to_string(), "\"abcd\"");
    assert_eq!(Object::UnitValue.to_string(), "()");
    assert_eq!(Object::IntegerValue(-12).to_string(), "-12");
    assert_eq!(
        Object::BuiltinValue(BuiltinFunction::Len).to_string(),
        "built-in function len"
    );
    assert_eq!(
        Object::ReturnValue(Box::new(Object::BooleanValue(false))).to_string(),
        "return false"
    );
    assert_eq!(
        BuiltinFunction::lookup_function("append").unwrap(),
        Object::BuiltinValue(BuiltinFunction::Append)
    );
    assert!(matches!(BuiltinFunction::lookup_function("nope"), Err(EvalError::IdentifierNotFound(_))));
}

#[test]
fn logical_operators_evaluate_both_sides() {
    assert!(matches!(run("false && y"), Err(EvalError::IdentifierNotFound(_))));
    let r = run("1 < 2 && 2 < 3 || false").unwrap();
    assert_eq!(r[0], Object::BooleanValue(true));
}

#[test]
fn statements_of_a_parsed_program() {
    let program = qalo::parser::Parser::new("let a = 1; a + 1; if a == 1 { let b = a; b * 10 }")
        .parse_program()
        .unwrap();
    let mut evaluator = Evaluator::new("");
    let r = evaluator.eval_statements(&program).unwrap();
    assert_eq!(
        r,
        vec![Object::UnitValue, Object::IntegerValue(2), Object::IntegerValue(10)]
    );
    let r = evaluator.eval_statements(&program).unwrap();
    assert_eq!(r[1], Object::IntegerValue(2));
}

#[test]
fn utf8_lengths() {
    assert_eq!(qalo::ops::utf8_length(""), Some(0));
    assert_eq!(qalo::ops::utf8_length("abc"), Some(3));
    assert_eq!(qalo::ops::utf8_length("é€😀"), Some(9));
}
