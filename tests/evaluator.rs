use qalo::evaluator::Evaluator;
use qalo::object::Object;

#[test]
fn eval_integer_literal() {
    let input = "5";
    let mut evaluator = Evaluator::new(input);
    let result = &evaluator.eval_program().unwrap()[0];
    assert_eq!(result, &Object::IntegerValue(5));
}

#[test]
fn eval_boolean_literal() {
    let input = "true";
    let mut evaluator = Evaluator::new(input);
    let result = &evaluator.eval_program().unwrap()[0];
    assert_eq!(result, &Object::BooleanValue(true));
}

#[test]
fn eval_string_literal() {
    let input = r#""foo""#;
    let mut evaluator = Evaluator::new(input);
    let result = &evaluator.eval_program().unwrap()[0];
    assert_eq!(result, &Object::StringValue("foo".to_owned()));
}

#[test]
fn eval_string_concatenation() {
    let input = r#"
        let greet = fn() {
            let a = "hello";
            let b = "world";
            return a + " " + b;
        };

        greet();
    "#;
    let mut evaluator = Evaluator::new(input);
    let result = &evaluator.eval_program().unwrap()[1];
    assert_eq!(result, &Object::StringValue("hello world".to_owned()));
}

#[test]
fn eval_boolean_expressions() {
    let tests = vec![
        ("true", true),
        ("false", false),
        ("1 < 2", true),
        ("1 > 2", false),
        ("1 < 1", false),
        ("1 > 1", false),
        ("1 == 1", true),
        ("1 != 1", false),
        ("1 == 2", false),
        ("1 != 2", true),
        ("true == true", true),
        ("false == false", true),
        ("true == false", false),
        ("true != false", true),
        ("false != true", true),
        ("(1 < 2) == true", true),
        ("(1 < 2) == false", false),
        ("(1 > 2) == true", false),
        ("(1 > 2) == false", true),
        ("true && true", true),
        ("true && false", false),
        ("false && true", false),
        ("false && false", false),
        ("true || true", true),
        ("true || false", true),
        ("false || true", true),
        ("false || false", false),
    ];

    for (input, expected) in tests {
        let mut evaluator = Evaluator::new(input);
        let result = &evaluator.eval_program().unwrap()[0];

        let expected_obj = match expected {
            true => &Object::BooleanValue(true),
            false => &Object::BooleanValue(false),
        };

        assert_eq!(result, expected_obj);
    }
}

#[test]
fn eval_binary_expressions() {
    let tests = vec![
        ("2 + 3", &Object::IntegerValue(5)),
        ("4 - 1", &Object::IntegerValue(3)),
        ("5 * 6", &Object::IntegerValue(30)),
        ("10 / 2", &Object::IntegerValue(5)),
        ("7 == 7", &Object::BooleanValue(true)),
        ("8 != 9", &Object::BooleanValue(true)),
        ("true == true", &Object::BooleanValue(true)),
        ("false != true", &Object::BooleanValue(true)),
    ];

    for (input, expected) in tests {
        let mut evaluator = Evaluator::new(input);
        let result = &evaluator.eval_program().unwrap()[0];
        assert_eq!(result, expected);
    }
}

#[test]
fn eval_unary_expressions() {
    let tests = vec![
        ("-2", &Object::IntegerValue(-2)),
        ("!true", &Object::BooleanValue(false)),
        ("!false", &Object::BooleanValue(true)),
        ("!5", &Object::IntegerValue(-6)),
        ("!!5", &Object::IntegerValue(5)),
        ("!0", &Object::IntegerValue(-1)),
        ("!!true", &Object::BooleanValue(true)),
        ("!!false", &Object::BooleanValue(false)),
    ];

    for (input, expected) in tests {
        let mut evaluator = Evaluator::new(input);
        let result = &evaluator.eval_program().unwrap()[0];
        assert_eq!(result, expected);
    }
}

#[test]
fn eval_if_expression() {
    let tests = vec![
        ("if true { 10 }", &Object::IntegerValue(10)),
        ("if false { 10 }", &Object::UnitValue),
        ("if 1 < 2 { 10 }", &Object::IntegerValue(10)),
        ("if 1 > 2 { 10 }", &Object::UnitValue),
        ("if 1 > 2 { 10 } else { 20 }", &Object::IntegerValue(20)),
        ("if 1 < 2 { 10 } else { 20 }", &Object::IntegerValue(10)),
    ];

    for (input, expected) in tests {
        let mut evaluator = Evaluator::new(input);
        let result = &evaluator.eval_program().unwrap()[0];
        assert_eq!(result, expected);
    }
}

#[test]
fn eval_array_expression() {
    let input = r#"
        let add = fn(x, y) { return x + y; };
        [1 + 1, add(2, 2)];
    "#;
    let mut evaluator = Evaluator::new(input);
    let result = &evaluator.eval_program().unwrap()[1];
    assert_eq!(
        result,
        &Object::ArrayValue(vec![Object::IntegerValue(2), Object::IntegerValue(4)])
    );
}

#[test]
fn eval_map_expression() {
    let input = r#"
        let foo = { "temp": 1 + 1, "foo": 4 };
        foo;
    "#;
    let mut evaluator = Evaluator::new(input);
    let result = &evaluator.eval_program().unwrap()[1];
    let expected = vec![
        ("temp".to_owned(), Object::IntegerValue(2)),
        ("foo".to_owned(), Object::IntegerValue(4)),
    ];
    assert_eq!(result, &Object::MapValue(expected));
}

#[test]
fn eval_index_expression() {
    let input = r#"
        let a = [100, 200, 300, 400];
        1 + a[1 + 1];

        let b = { 
            "foo": 2,
            "bar": 4
        };
        b["foo"];
    "#;
    let mut evaluator = Evaluator::new(input);
    let result = evaluator.eval_program().unwrap();
    assert_eq!(&result[1], &Object::IntegerValue(301));
    assert_eq!(&result[3], &Object::IntegerValue(2));
}

#[test]
fn eval_function_expression() {
    let input = r#"
        let foo = fn(x) {
            let double = fn(y) { y * 2; };
            return double(x);
        };

        let bar = foo(3);
        bar;
    "#;
    let mut evaluator = Evaluator::new(input);
    let result = &evaluator.eval_program().unwrap()[2];
    assert_eq!(result, &Object::IntegerValue(6));
}

#[test]
fn eval_function_expressions() {
    let tests = vec![
        ("let identity = fn(x) { x; }; identity(5);", 5),
        ("let identity = fn(x) { return x; }; identity(5);", 5),
        ("let double = fn(x) { x * 2; }; double(5);", 10),
        ("let add = fn(x, y) { x + y; }; add(5, 5);", 10),
        ("let add = fn(x, y) { x + y; }; add(5 + 5, add(5, 5));", 20),
        ("1; fn(x) { x; }(5)", 5),
    ];

    for (input, expected) in tests {
        let mut evaluator = Evaluator::new(input);
        let result = &evaluator.eval_program().unwrap()[1];
        let expected_obj = &Object::IntegerValue(expected);
        assert_eq!(result, expected_obj);
    }
}

#[test]
fn eval_block_statement() {
    let input = r#"
        let a = 2;

        {
            let b = 3;
            b;
        }

        a;
    "#;
    let mut evaluator = Evaluator::new(input);
    let result = &evaluator.eval_program().unwrap()[2];
    assert_eq!(result, &Object::IntegerValue(2));
}

#[test]
fn eval_assign_statement() {
    let input = r#"
        let a = 2;
        a = a + 2;
        a;
    "#;
    let mut evaluator = Evaluator::new(input);
    let result = &evaluator.eval_program().unwrap()[2];
    assert_eq!(result, &Object::IntegerValue(4));
}

#[test]
fn eval_static_scope() {
    let input = r#"
        let i = 5;
        let foo = fn(i) {
            i;
        };

        foo(10);
        i;
    "#;
    let mut evaluator = Evaluator::new(input);
    let result = &evaluator.eval_program().unwrap();
    assert_eq!(&result[2], &Object::IntegerValue(10));
    assert_eq!(&result[3], &Object::IntegerValue(5));
}

#[test]
fn eval_closure() {
    let input = r#"
        let newAdder = fn(x) {
            fn(y) { x + y };
        };

        let addTwo = newAdder(2);
        addTwo(2);
    "#;
    let mut evaluator = Evaluator::new(input);
    let result = &evaluator.eval_program().unwrap();
    assert_eq!(&result[2], &Object::IntegerValue(4));
}

#[test]
fn eval_nested_returns() {
    let input = r#"
        let add = fn(x, y) { return x + y; };

        let foo = fn() {
            return add(5 + 5, add(1, 1));
        };

        let faz = fn() {
            return 20;
        };

        let bar = if foo() == 12 {
            if foo() == 12 {
                return faz();
            }

            return 100;
        } else {
            return -1;
        };

        bar;
    "#;
    let mut evaluator = Evaluator::new(input);
    let result = &evaluator.eval_program().unwrap();
    assert_eq!(&result[4], &Object::IntegerValue(20));
}

#[test]
fn eval_function_as_parameter() {
    let input = r#"
        let add = fn(x, y) { return x + y; };
        let sub = fn(x, y) { return x - y; };
        let applyFunc = fn(a, b, cb) {
            cb(a, b)
        };
        applyFunc(2, 2, add);
        applyFunc(10, 2, sub);
    "#;
    let mut evaluator = Evaluator::new(input);
    let result = &evaluator.eval_program().unwrap();
    assert_eq!(&result[3], &Object::IntegerValue(4));
    assert_eq!(&result[4], &Object::IntegerValue(8));
}

#[test]
fn builtin_len() {
    let input = r#"
        len("hello");
        len("");
    "#;
    let mut evaluator = Evaluator::new(input);
    let result = &evaluator.eval_program().unwrap();
    assert_eq!(&result[0], &Object::IntegerValue(5));
    assert_eq!(&result[1], &Object::IntegerValue(0));
}

#[test]
fn builtin_append() {
    let input = r#"
        append([1, 2, 3], 100, 200);
    "#;
    let mut evaluator = Evaluator::new(input);
    let result = &evaluator.eval_program().unwrap();
    assert_eq!(
        &result[0],
        &Object::ArrayValue(vec![
            Object::IntegerValue(1),
            Object::IntegerValue(2),
            Object::IntegerValue(3),
            Object::IntegerValue(100),
            Object::IntegerValue(200),
        ])
    );
}

#[test]
fn builtin_rest() {
    let input = r#"
        rest([1, 2, 3]);
    "#;
    let mut evaluator = Evaluator::new(input);
    let result = &evaluator.eval_program().unwrap();
    assert_eq!(
        &result[0],
        &Object::ArrayValue(vec![Object::IntegerValue(2), Object::IntegerValue(3)])
    );
}

#[test]
fn custom_map() {
    let input = r#"
        let map = fn(arr, f) {
            let iter = fn(arr, accumulated) {
                if len(arr) == 0 {
                    accumulated
                } else {
                    iter(rest(arr), append(accumulated, f(arr[0])));
                }
            };

            iter(arr, []);
        };

        let arr = [1, 2, 3, 4];
        let double = fn(x) { x * 2 };
        map(arr, double);
    "#;
    let mut evaluator = Evaluator::new(input);
    let result = &evaluator.eval_program().unwrap();
    assert_eq!(
        &result[3],
        &Object::ArrayValue(vec![
            Object::IntegerValue(2),
            Object::IntegerValue(4),
            Object::IntegerValue(6),
            Object::IntegerValue(8)
        ])
    );
}

#[test]
fn custom_reduce() {
    let input = r#"
        let reduce = fn(arr, initial, f) {
            let iter = fn(arr, result) {
                if len(arr) == 0 {
                    result
                } else {
                    iter(rest(arr), f(result, arr[0]));
                }
            };

            iter(arr, initial);
        };

        let sum = fn(arr) {
            return reduce(arr, 0, fn(initial, el) { initial + el });
        };

        sum([1, 2, 3, 4, 5]);
    "#;
    let mut evaluator = Evaluator::new(input);
    let result = &evaluator.eval_program().unwrap();
    assert_eq!(&result[2], &Object::IntegerValue(15));
}
