use qalo::ast::{Expression, ParserError, Statement};
use qalo::parser::{parse_numeral, Parser};

#[test]
fn parse_var_statement() {
    let input = r#"
        let five = 5;
        let taken = false;
        let temp = taken;
        let seven = five + 2 * 1;
    "#;

    let num_vars = input.lines().count() - 2;
    let mut parser = Parser::new(input);

    (0..num_vars).for_each(|_| {
        parser.parse_var_statement().unwrap();
        parser.eat_token();
    });
}

#[test]
fn parse_return_statement() {
    let input = r#"
        return token;
    "#;

    let mut parser = Parser::new(input);
    parser.parse_return_statement().unwrap();
}

#[test]
fn parse_expression_statement() {
    let input = r#"
        a + 2 * 2
    "#;

    let mut parser = Parser::new(input);
    parser.parse_expression_statement().unwrap();
}

#[test]
fn parse_block_statement() {
    let input = r#"
        { let a = 2; }

        { 2 + 2; }
    "#;

    let mut parser = Parser::new(input);
    parser.parse_block_statement().unwrap();
}

#[test]
fn parse_program() {
    let input = r#"
        let a = 1;
        let b = a + 1;
        return a / b;
        a + b
    "#;

    let mut parser = Parser::new(input);
    parser.parse_program().unwrap();
}

#[test]
fn operator_precedence() {
    let tests = vec![
        ("-a * b", "((-a) * b)"),
        ("!-a", "(!(-a))"),
        ("a + b + c", "((a + b) + c)"),
        ("a * b * c", "((a * b) * c)"),
        ("a * b / c", "((a * b) / c)"),
        ("a + b * c + d / e - f", "(((a + (b * c)) + (d / e)) - f)"),
        ("3 + 4; -5 * 5", "(3 + 4)((-5) * 5)"),
        ("5 > 4 == 3 < 4", "((5 > 4) == (3 < 4))"),
        ("5 > 4 != 3 < 4", "((5 > 4) != (3 < 4))"),
        (
            "3 + 4 * 5 == 3 * 1 + 4 * 5",
            "((3 + (4 * 5)) == ((3 * 1) + (4 * 5)))",
        ),
        ("true", "true"),
        ("false", "false"),
        ("3 > 5 == false", "((3 > 5) == false)"),
        ("3 < 5 == true", "((3 < 5) == true)"),
        ("1 + (2 + 3) + 4", "((1 + (2 + 3)) + 4)"),
        ("(5 + 5) * 2", "((5 + 5) * 2)"),
        ("2 / (5 + 5)", "(2 / (5 + 5))"),
        ("-(5 + 5)", "(-(5 + 5))"),
        ("!(true == true)", "(!(true == true))"),
        ("a + add(b * c) + d", "((a + add((b * c))) + d)"),
        (
            "add(1, 2 * 3, sum(6, 7 * 8))",
            "add(1, (2 * 3), sum(6, (7 * 8)))",
        ),
        (
            "add(a + b + c * d / f + g)",
            "add((((a + b) + ((c * d) / f)) + g))",
        ),
    ];

    for test in tests {
        let (input, expected) = test;
        let mut parser = Parser::new(input);
        let res = parser.parse_program().unwrap().to_string();
        assert_eq!(expected, res);
    }
}

#[test]
fn parse_if_expression() {
    let input = r#"
        let a = if 2 * 2 > 1 {
            let a = 3;
            a
        } else {
            b
        };

        if true { 2 };
    "#;

    let mut parser = Parser::new(input);
    parser.parse_program().unwrap();
}

#[test]
fn parse_function_expression() {
    let input = r#"
        let a = fn(arg) {
            let bar = 2;

            return fn(foo) {
                bar
            };
        };
    "#;

    let mut parser = Parser::new(input);
    parser.parse_program().unwrap();
}

#[test]
fn parse_array_expression() {
    let input = r#"
        [1, [3 + 3, fn(x) { x; }]]
    "#;

    let mut parser = Parser::new(input);
    parser.parse_program().unwrap();
}

fn render(input: &str) -> String {
    Parser::new(input).parse_program().unwrap().to_string()
}

#[test]
fn print_then_parse_prints_the_same() {
    let sources = vec![
        "a + b * c + d / e - f",
        "-a * b",
        "!(1 + 2) % 3 - -4",
        "a == b != c < d",
        "x && y || z == w",
    ];
    for source in sources {
        let once = render(source);
        let twice = render(&once);
        assert_eq!(once, twice);
    }
}

#[test]
fn logical_operators_bind_loosest() {
    assert_eq!(render("a == b && c < d || e"), "(((a == b) && (c < d)) || e)");
}

#[test]
fn printed_forms_of_other_expressions() {
    assert_eq!(render("a[1 + 1]"), "(a[(1 + 1)])");
    assert_eq!(render("-a[0]"), "((-a)[0])");
    assert_eq!(render("[1, \"s\", true]"), "[1, \"s\", true]");
    assert_eq!(render("let m = {\"k\": 1, \"j\": 2, \"k\": 3};"), "let m = {\"k\": 3, \"j\": 2};");
    assert_eq!(render("if x { 1 } else { 2 }"), "if x {1} else {2}");
    assert_eq!(render("fn(x, y) { return x; }"), "fn(x, y) {return x;}");
    assert_eq!(render("a = 1;"), "a = 1;");
    assert_eq!(render("fn(x) { x }(5)"), "fn(x) {x}(5)");
}

#[test]
fn parse_errors() {
    let r = Parser::new("()").parse_program();
    assert!(matches!(r, Err(ParserError::SyntaxError(_))));
    let r = Parser::new("a[]").parse_program();
    assert!(matches!(r, Err(ParserError::SyntaxError(_))));
    let r = Parser::new("[1 2]").parse_program();
    assert!(matches!(r, Err(ParserError::SyntaxError(_))));
    let r = Parser::new("let = 5;").parse_program();
    match r {
        Err(ParserError::UnexpectedToken(t)) => assert_eq!(t.literal, "="),
        other => panic!("unexpected: {:?}", other),
    }
    let r = Parser::new("99999999999").parse_program();
    match r {
        Err(ParserError::IntConversionError(text)) => assert_eq!(text, "99999999999"),
        other => panic!("unexpected: {:?}", other),
    }
    let r = Parser::new("{ 1 ").parse_program();
    assert!(matches!(r, Err(ParserError::UnexpectedToken(_))));
}

#[test]
fn numerals() {
    assert_eq!(parse_numeral("2147483647"), Some(2147483647));
    assert_eq!(parse_numeral("2147483648"), None);
    assert_eq!(parse_numeral("007"), Some(7));
    assert_eq!(parse_numeral(""), None);
    assert_eq!(parse_numeral("1a"), None);
}

#[test]
fn statement_shapes() {
    let program = Parser::new("let x = 1; x = 2; { x }").parse_program().unwrap();
    assert_eq!(program.0.len(), 3);
    assert!(matches!(program.0[0], Statement::VarStatement { .. }));
    assert!(matches!(program.0[1], Statement::AssignStatement { .. }));
    match &program.0[2] {
        Statement::BlockStatement(inner) => {
            assert_eq!(inner.len(), 1);
            assert!(matches!(
                inner[0],
                Statement::ExpressionStatement(Expression::Identifier(_))
            ));
        }
        other => panic!("unexpected: {:?}", other),
    }
}

#[test]
fn prefix_operands() {
    let mut parser = Parser::new("-x + 1");
    let e = parser.parse_prefix().unwrap();
    assert_eq!(e.to_string(), "(-x)");
    let mut parser = Parser::new("fn(a, b,) { a }");
    let e = parser.parse_prefix().unwrap();
    assert_eq!(e.to_string(), "fn(a, b) {a}");
    let mut parser = Parser::new("fn(a b) { a }");
    assert!(matches!(parser.parse_prefix(), Err(ParserError::SyntaxError(_))));
    let mut parser = Parser::new(")");
    assert!(matches!(parser.parse_prefix(), Err(ParserError::UnexpectedToken(_))));
}
