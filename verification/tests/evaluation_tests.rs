use minilang::ast::{BinaryOperator, Expression, Statement, UnaryOperator};
use minilang::error::RuntimeError;
use minilang::interpreter::{Interpreter, UNBOUNDED};
use minilang::number::Number;
use minilang::parser::parse;
use minilang::value::Value;
use std::cell::RefCell;

fn units(u: i64) -> Value {
    Value::Number(Number::from_units(u))
}

fn whole(v: i32) -> Value {
    Value::Number(Number::from_whole(v))
}

fn text(s: &str) -> Value {
    Value::String(s.to_string())
}

fn run(input: &str) -> Result<Value, RuntimeError> {
    let statements = parse(input).unwrap();
    Interpreter::new().interpret(statements)
}

fn same(r: Result<Value, RuntimeError>, v: Value) -> bool {
    match r {
        Ok(x) => x == v,
        Err(_) => false,
    }
}

fn call(name: &str, args: Vec<Expression>) -> Statement {
    Statement::Expression(Expression::call(Expression::Identifier(name.to_string()), args))
}

fn lit(v: i32) -> Expression {
    Expression::Number(Number::from_whole(v))
}

#[test]
fn the_value_of_a_program_is_that_of_its_last_statement() {
    assert!(same(run(""), Value::Null));
    assert!(same(run("1; 2; 3;"), whole(3)));
    assert!(same(run("var x = 1; fn f() { }"), Value::Null));
    assert!(same(run("var x;"), Value::Null));
    assert!(same(run("{ }"), Value::Null));
    assert!(same(run("{ 1; { 2; } }"), whole(2)));
}

#[test]
fn division_by_zero_is_an_error() {
    assert_eq!(run("5 / 0;"), Err(RuntimeError::DivisionByZero));
    assert_eq!(run("0 / 0;"), Err(RuntimeError::DivisionByZero));
    assert!(same(run("0 / 5;"), whole(0)));
    assert!(same(run("1 / 3;"), units(333_333)));
}

#[test]
fn arithmetic_beyond_the_range_is_an_error() {
    assert_eq!(
        run("9000000000000 * 9000000000000;"),
        Err(RuntimeError::Custom("Number out of range".to_string()))
    );
    assert_eq!(
        run("9000000000000 + 9000000000000;"),
        Err(RuntimeError::Custom("Number out of range".to_string()))
    );
    assert_eq!(
        run("9000000000000 / 0.000001;"),
        Err(RuntimeError::Custom("Number out of range".to_string()))
    );
    assert!(same(run("0 - 9000000000000 - 223372036854;"), units(-9_223_372_036_854_000_000)));
}

#[test]
fn operators_on_the_wrong_kinds() {
    assert_eq!(
        run("1 + \"a\";"),
        Err(RuntimeError::TypeError(
            "Invalid operation: cannot apply Add to 1 and \"a\"".to_string()
        ))
    );
    assert_eq!(
        run("true - 2.5;"),
        Err(RuntimeError::TypeError(
            "Invalid operation: cannot apply Subtract to true and 2.5".to_string()
        ))
    );
    assert_eq!(
        run("var n; (n < round);"),
        Err(RuntimeError::TypeError(
            "Invalid operation: cannot apply Less to null and <native fn round>".to_string()
        ))
    );
    assert_eq!(
        run("fn f() { } (f && true);"),
        Err(RuntimeError::TypeError(
            "Invalid operation: cannot apply And to <fn> and true".to_string()
        ))
    );
    assert_eq!(
        run("\"a\" * \"b\";"),
        Err(RuntimeError::TypeError(
            "Invalid operation: cannot apply Multiply to \"a\" and \"b\"".to_string()
        ))
    );
    assert_eq!(
        run("1 || 2;"),
        Err(RuntimeError::TypeError(
            "Invalid operation: cannot apply Or to 1 and 2".to_string()
        ))
    );
}

#[test]
fn equality_of_values() {
    assert!(same(run("1 == 1.0;"), Value::Boolean(true)));
    assert!(same(run("1 == 1.000001;"), Value::Boolean(false)));
    assert!(same(run("\"a\" == \"a\";"), Value::Boolean(true)));
    assert!(same(run("\"a\" != \"b\";"), Value::Boolean(true)));
    assert!(same(run("true == true;"), Value::Boolean(true)));
    assert!(same(run("1 == \"1\";"), Value::Boolean(false)));
    assert!(same(run("1 != \"1\";"), Value::Boolean(true)));
    assert!(same(run("var a; var b; (a == b);"), Value::Boolean(true)));
    assert!(same(run("var a; (a == false);"), Value::Boolean(false)));
    assert!(same(run("(round == round);"), Value::Boolean(false)));
    assert!(same(run("(round != round);"), Value::Boolean(true)));
    assert!(same(run("var r = round; r == round;"), Value::Boolean(false)));
    assert!(same(run("fn f() { } (f == f);"), Value::Boolean(false)));
    assert!(same(run("fn f() { } (f != f);"), Value::Boolean(true)));
}

#[test]
fn comparisons_of_numbers() {
    assert!(same(run("2 >= 2;"), Value::Boolean(true)));
    assert!(same(run("2 <= 1;"), Value::Boolean(false)));
    assert!(same(run("1 <= 2;"), Value::Boolean(true)));
    assert!(same(run("1 >= 2;"), Value::Boolean(false)));
    assert!(same(run("0.1 + 0.2 == 0.3;"), Value::Boolean(true)));
}

#[test]
fn logic_takes_both_operands() {
    assert!(same(run("true || false;"), Value::Boolean(true)));
    assert!(same(run("false || false;"), Value::Boolean(false)));
    assert!(same(run("true && true;"), Value::Boolean(true)));
    assert_eq!(run("false && y;"), Err(RuntimeError::UndefinedVariable("y".to_string())));
}

#[test]
fn prefix_operators() {
    let mut i = Interpreter::new();
    let minus = Statement::Expression(Expression::unary(UnaryOperator::Minus, lit(5)));
    assert!(same(i.interpret(vec![minus]), whole(-5)));
    let not = Statement::Expression(Expression::unary(UnaryOperator::Not, Expression::Boolean(true)));
    assert!(same(i.interpret(vec![not]), Value::Boolean(false)));
    let wrong = Statement::Expression(Expression::unary(UnaryOperator::Not, lit(1)));
    assert_eq!(i.interpret(vec![wrong]), Err(RuntimeError::InvalidOperation));
    let wrong = Statement::Expression(Expression::unary(
        UnaryOperator::Minus,
        Expression::String("a".to_string()),
    ));
    assert_eq!(i.interpret(vec![wrong]), Err(RuntimeError::InvalidOperation));
    let least = Statement::Expression(Expression::unary(
        UnaryOperator::Minus,
        Expression::Number(Number::from_units(i64::MIN)),
    ));
    assert_eq!(
        i.interpret(vec![least]),
        Err(RuntimeError::Custom("Number out of range".to_string()))
    );
}

#[test]
fn assignment() {
    assert!(same(run("var x = 1; x = 2;"), whole(2)));
    assert!(same(run("var x = 1; x = x + 4; x;"), whole(5)));
    assert!(same(run("var x; var y; x = y = 3; x;"), whole(3)));
    assert_eq!(run("x = 1;"), Err(RuntimeError::UndefinedVariable("x".to_string())));
    assert_eq!(run("var x; x = y;"), Err(RuntimeError::UndefinedVariable("y".to_string())));
    assert_eq!(
        run("var x; (1 + x = 2);"),
        Err(RuntimeError::TypeError("Left side of assignment must be a variable".to_string()))
    );
}

#[test]
fn a_declaration_in_the_same_scope_replaces() {
    assert!(same(run("var x = 1; var x = 2; x;"), whole(2)));
    assert!(same(run("var x = 1; var x; x;"), Value::Null));
}

#[test]
fn an_inner_scope_reads_and_sets_outer_bindings() {
    assert!(same(run("var x = 1; { x = 5; } x;"), whole(5)));
    assert!(same(run("var x = 1; { { x; } }"), whole(1)));
    assert!(same(run("var x = 1; { var y = x + 1; y; }"), whole(2)));
    assert_eq!(run("{ var y = 1; } y;"), Err(RuntimeError::UndefinedVariable("y".to_string())));
}

#[test]
fn scopes_are_left_after_an_error() {
    let mut i = Interpreter::new();
    let failing = parse("var x = 1; { var x = 2; { var x = 3; y; } }").unwrap();
    assert_eq!(i.interpret(failing), Err(RuntimeError::UndefinedVariable("y".to_string())));
    assert!(same(i.interpret(parse("x;").unwrap()), whole(1)));
    let failing = parse("fn f(x) { return 1 / 0; } f(7);").unwrap();
    assert_eq!(i.interpret(failing), Err(RuntimeError::DivisionByZero));
    assert!(same(i.interpret(parse("x;").unwrap()), whole(1)));
}

#[test]
fn an_evaluator_keeps_its_bindings_between_runs() {
    let mut i = Interpreter::new();
    assert!(same(i.interpret(parse("var a = 2; fn twice(v) { return v * a; }").unwrap()), Value::Null));
    assert!(same(i.interpret(parse("twice(21);").unwrap()), whole(42)));
}

#[test]
fn conditions() {
    assert!(same(run("if (1 < 2) 10; else 20;"), whole(10)));
    assert!(same(run("if (1 > 2) 10; else 20;"), whole(20)));
    assert!(same(run("if (1 > 2) 10;"), Value::Null));
    assert_eq!(run("if (y) 1;"), Err(RuntimeError::UndefinedVariable("y".to_string())));
}

#[test]
fn what_counts_as_true() {
    assert!(same(run("if (0) 1; else 2;"), whole(2)));
    assert!(same(run("if (0.000001) 1; else 2;"), whole(1)));
    assert!(same(run("if (\"\") 1; else 2;"), whole(2)));
    assert!(same(run("if (\"a\") 1; else 2;"), whole(1)));
    assert!(same(run("var n; if (n) 1; else 2;"), whole(2)));
    assert!(same(run("if (round) 1; else 2;"), whole(1)));
    assert!(same(run("fn f() { } if (f) 1; else 2;"), whole(1)));
    assert!(same(run("if (false) 1; else 2;"), whole(2)));
}

#[test]
fn while_loops_run_until_the_condition_fails() {
    assert!(same(
        run("var i = 0; var s = 0; while (i < 5) { s = s + i; i = i + 1; } s;"),
        whole(10)
    ));
    assert!(same(run("var i = 0; while (i < 3) i = i + 1;"), whole(3)));
    assert!(same(run("while (false) 1;"), Value::Null));
    assert_eq!(run("while (1 / 0) 1;"), Err(RuntimeError::DivisionByZero));
    assert_eq!(
        run("var i = 0; while (i < 3) { i = i + 1; y; }"),
        Err(RuntimeError::UndefinedVariable("y".to_string()))
    );
}

#[test]
fn for_loops() {
    assert!(same(
        run("var s = 0; for (var i = 1; i <= 4; i = i + 1) { s = s + i; } s;"),
        whole(10)
    ));
    assert!(same(run("for (var i = 0; i < 3; i = i + 1) (i * 2);"), whole(4)));
    assert!(same(run("for (var i = 0; i < 2; i = i + 1) { } i;"), whole(2)));
    assert!(same(run("var i = 5; for (; i < 8; ) i = i + 1;"), whole(8)));
    assert!(same(run("for (var i = 0; false; ) 1;"), Value::Null));
    assert_eq!(
        run("for (var i = 0; i < 2; y) 1;"),
        Err(RuntimeError::UndefinedVariable("y".to_string()))
    );
    assert_eq!(run("for (y; ; ) 1;"), Err(RuntimeError::UndefinedVariable("y".to_string())));
}

#[test]
fn loops_end_with_the_budget() {
    let exhausted = Err(RuntimeError::Custom("Evaluation budget exhausted".to_string()));
    let mut i = Interpreter::with_budget(10);
    assert_eq!(i.interpret(parse("while (true) { }").unwrap()), exhausted);
    let mut i = Interpreter::with_budget(10);
    assert_eq!(i.interpret(parse("for (;;) { }").unwrap()), exhausted);
    let mut i = Interpreter::with_budget(10);
    assert_eq!(i.interpret(parse("var n = 0; while (true) n = n + 1;").unwrap()), exhausted);
    assert!(same(i.interpret(parse("n;").unwrap()), whole(10)));
    let mut i = Interpreter::with_budget(4);
    assert!(same(
        i.interpret(parse("var n = 0; while (n < 3) n = n + 1;").unwrap()),
        whole(3)
    ));
    let mut i = Interpreter::with_budget(3);
    assert_eq!(i.interpret(parse("var n = 0; while (n < 3) n = n + 1;").unwrap()), exhausted);
    let mut i = Interpreter::with_budget(0);
    assert!(same(i.interpret(parse("var a = 1 + 2; { a; }").unwrap()), whole(3)));
    assert_eq!(i.interpret(parse("while (false) { }").unwrap()), exhausted);
    assert_eq!(i.interpret(parse("fn f() { } f();").unwrap()), exhausted);
    assert!(same(i.interpret(parse("round(1.5);").unwrap()), whole(2)));
}

#[test]
fn calls_end_with_the_budget() {
    let mut i = Interpreter::with_budget(50);
    assert_eq!(
        i.interpret(parse("fn f(n) { return f(n + 1); } f(0);").unwrap()),
        Err(RuntimeError::Custom("Evaluation budget exhausted".to_string()))
    );
    let mut i = Interpreter::with_budget(50);
    assert!(same(
        i.interpret(
            parse("fn f(n) { if (n < 40) { return f(n + 1); } else { return n; } } f(0);").unwrap()
        ),
        whole(40)
    ));
    assert_eq!(UNBOUNDED, u64::MAX);
}

#[test]
fn a_long_loop_runs_on_the_usual_budget() {
    assert!(same(
        run("var i = 0; while (i < 20000) i = i + 1;"),
        whole(20000)
    ));
}

#[test]
fn switches_take_the_first_equal_case() {
    let program = "fn pick(v) { switch (v) { case 1: \"one\"; case 1 + 1: \"two\"; case 1: \"again\"; default: \"other\"; } } ";
    assert!(same(run(&format!("{} pick(1);", program)), text("one")));
    assert!(same(run(&format!("{} pick(2);", program)), text("two")));
    assert!(same(run(&format!("{} pick(3);", program)), text("other")));
    assert!(same(run(&format!("{} pick(\"1\");", program)), text("other")));
    assert!(same(run("switch (1) { case 2: 5; }"), Value::Null));
    assert!(same(run("switch (1) { case 1: }"), Value::Null));
    assert!(same(run("switch (1) { }"), Value::Null));
    assert!(same(run("switch (1) { default: 6; case 1: 7; }"), whole(7)));
}

#[test]
fn case_values_are_evaluated_in_order_until_one_matches() {
    assert!(same(
        run("var n = 0; fn next() { n = n + 1; return n; } switch (2) { case next(): 0; case next(): 0; case next(): 0; } n;"),
        whole(2)
    ));
    assert_eq!(
        run("switch (1) { case y: 1; case 1: 2; }"),
        Err(RuntimeError::UndefinedVariable("y".to_string()))
    );
    assert!(same(run("switch (1) { case 1: 2; case y: 1; }"), whole(2)));
    assert_eq!(run("switch (y) { }"), Err(RuntimeError::UndefinedVariable("y".to_string())));
}

#[test]
fn a_switch_opens_no_scope() {
    assert!(same(run("switch (1) { case 1: var z = 9; } z;"), whole(9)));
}

#[test]
fn return_does_not_end_the_function() {
    assert!(same(run("fn f() { return 1; 2; } f();"), whole(2)));
    assert!(same(run("fn f() { return 1; } f();"), whole(1)));
    assert!(same(run("fn f() { return; } f();"), Value::Null));
    assert!(same(run("return 3;"), whole(3)));
    assert!(same(run("fn f() { } f();"), Value::Null));
}

#[test]
fn a_function_runs_in_the_scopes_of_its_call() {
    assert!(same(
        run("var a = 1; fn g() { return a; } fn h() { var a = 2; return g(); } h();"),
        whole(2)
    ));
    assert!(same(run("var a = 1; fn g() { a = a + 1; } g(); g(); a;"), whole(3)));
    assert!(same(run("fn g(a) { a = 5; return a; } var a = 1; g(2); a;"), whole(1)));
}

#[test]
fn the_number_of_arguments_must_fit() {
    let declare = "fn test(x, y) { return x + y; } ";
    assert_eq!(
        run(&format!("{} test(2);", declare)),
        Err(RuntimeError::InvalidArgumentCount { expected: 2, got: 1 })
    );
    assert_eq!(
        run(&format!("{} test();", declare)),
        Err(RuntimeError::InvalidArgumentCount { expected: 2, got: 0 })
    );
    assert_eq!(
        run(&format!("{} test(1, 2, 3);", declare)),
        Err(RuntimeError::InvalidArgumentCount { expected: 2, got: 3 })
    );
    assert!(same(run(&format!("{} test(2, 3);", declare)), whole(5)));
}

#[test]
fn arguments_are_evaluated_before_the_call() {
    assert_eq!(
        run("fn f(a) { } f(y, 1);"),
        Err(RuntimeError::UndefinedVariable("y".to_string()))
    );
    let mut i = Interpreter::new();
    let program = vec![Statement::Expression(Expression::call(
        lit(1),
        vec![Expression::Identifier("y".to_string())],
    ))];
    assert_eq!(i.interpret(program), Err(RuntimeError::UndefinedVariable("y".to_string())));
    assert!(same(
        run("var n = 0; fn next() { n = n + 1; return n; } fn sub(a, b) { return a - b; } sub(next(), next());"),
        whole(-1)
    ));
}

#[test]
fn a_later_parameter_of_the_same_name_wins() {
    assert!(same(run("fn f(a, a) { return a; } f(1, 2);"), whole(2)));
}

#[test]
fn only_functions_can_be_called() {
    assert_eq!(
        run("var x = 5; x(1);"),
        Err(RuntimeError::TypeError("Cannot call non-function value: 5".to_string()))
    );
    let mut i = Interpreter::new();
    let program = vec![Statement::Expression(Expression::call(
        Expression::String("s".to_string()),
        vec![],
    ))];
    assert_eq!(
        i.interpret(program),
        Err(RuntimeError::TypeError("Cannot call non-function value: \"s\"".to_string()))
    );
    assert_eq!(
        run("var n; n();"),
        Err(RuntimeError::TypeError("Cannot call non-function value: null".to_string()))
    );
}

#[test]
fn round_gives_the_nearest_whole_number() {
    assert!(same(run("round(3.7);"), whole(4)));
    assert!(same(run("round(3.14159);"), whole(3)));
    assert!(same(run("round(2.5);"), whole(3)));
    assert!(same(run("round(-2.5);"), whole(-3)));
    assert!(same(run("round(0 - 2.5);"), whole(-3)));
    assert!(same(run("round(1234.5678);"), whole(1235)));
    assert!(same(run("round(42);"), whole(42)));
    assert!(same(run("round(0);"), whole(0)));
}

#[test]
fn round_reads_its_first_argument_only() {
    assert!(same(run("round(3.14159, 2);"), whole(3)));
    assert!(same(run("round(3.7, 0, \"x\");"), whole(4)));
}

#[test]
fn round_rejects_what_is_no_number() {
    assert_eq!(
        run("round();"),
        Err(RuntimeError::InvalidArgumentCount { expected: 1, got: 0 })
    );
    assert_eq!(
        run("round(\"3.14\", 2);"),
        Err(RuntimeError::TypeError("Expected number argument".to_string()))
    );
    assert_eq!(
        run("round(true);"),
        Err(RuntimeError::TypeError("Expected number argument".to_string()))
    );
    assert_eq!(
        run("round(9223372036854.6);"),
        Err(RuntimeError::Custom("Number out of range".to_string()))
    );
}

#[test]
fn out_writes_one_line_for_each_call() {
    let mut i = Interpreter::new();
    let program = vec![
        call("out", vec![lit(42)]),
        call("out", vec![Expression::String("Hello".to_string())]),
        call("out", vec![Expression::Boolean(true)]),
        call("out", vec![Expression::Boolean(false)]),
        call("out", vec![Expression::Number(Number::from_units(-1_500_000))]),
        call("out", vec![Expression::Identifier("out".to_string())]),
        Statement::VarDeclaration { name: "n".to_string(), initializer: None },
        call("out", vec![Expression::Identifier("n".to_string())]),
        Statement::FunctionDeclaration { name: "f".to_string(), params: vec![], body: vec![] },
        call("out", vec![Expression::Identifier("f".to_string())]),
    ];
    assert!(same(i.interpret(program), Value::Null));
    let expected: Vec<String> = [
        "42",
        "Hello",
        "true",
        "false",
        "-1.5",
        "[Native Function: out]",
        "null",
        "[Function]",
    ]
    .iter()
    .map(|s| s.to_string())
    .collect();
    assert_eq!(i.output(), &expected);
    assert_eq!(i.take_output(), expected);
    assert!(i.output().is_empty());
    assert!(same(i.interpret(vec![call("out", vec![lit(1)])]), Value::Null));
    assert_eq!(i.take_output(), vec!["1".to_string()]);
}

#[test]
fn out_takes_exactly_one_argument() {
    let mut i = Interpreter::new();
    assert_eq!(
        i.interpret(vec![call("out", vec![])]),
        Err(RuntimeError::InvalidArgumentCount { expected: 1, got: 0 })
    );
    assert_eq!(
        i.interpret(vec![call("out", vec![lit(1), lit(2)])]),
        Err(RuntimeError::InvalidArgumentCount { expected: 1, got: 2 })
    );
    assert!(i.output().is_empty());
}

#[test]
fn lines_written_before_an_error_stay() {
    let mut i = Interpreter::new();
    let program = vec![
        call("out", vec![lit(1)]),
        Statement::Expression(Expression::Identifier("y".to_string())),
        call("out", vec![lit(2)]),
    ];
    assert_eq!(i.interpret(program), Err(RuntimeError::UndefinedVariable("y".to_string())));
    assert_eq!(i.take_output(), vec!["1".to_string()]);
}

#[test]
fn a_built_in_name_can_be_bound_anew() {
    let mut i = Interpreter::new();
    let program = vec![
        Statement::VarDeclaration {
            name: "show".to_string(),
            initializer: Some(Expression::Identifier("out".to_string())),
        },
        call("show", vec![lit(3)]),
    ];
    assert!(same(i.interpret(program), Value::Null));
    assert_eq!(i.take_output(), vec!["3".to_string()]);
    assert!(same(run("var round = 1; round;"), whole(1)));
    assert!(same(run("var r = round; r(2.5);"), whole(3)));
}

#[test]
fn the_target_of_an_assignment_must_be_a_name() {
    let mut i = Interpreter::new();
    let program = vec![Statement::Expression(Expression::Binary {
        left: Box::new(lit(1)),
        operator: BinaryOperator::Assign,
        right: Box::new(lit(2)),
    })];
    assert_eq!(
        i.interpret(program),
        Err(RuntimeError::TypeError("Left side of assignment must be a variable".to_string()))
    );
}

#[test]
fn a_sink_hears_each_line_as_it_is_written() {
    let heard: RefCell<Vec<String>> = RefCell::new(Vec::new());
    let sink = |line: String| heard.borrow_mut().push(line);
    let mut i = Interpreter::new();
    let program = vec![
        call("out", vec![lit(1)]),
        Statement::FunctionDeclaration {
            name: "twice".to_string(),
            params: vec!["v".to_string()],
            body: vec![
                call("out", vec![Expression::Identifier("v".to_string())]),
                call("out", vec![Expression::Identifier("v".to_string())]),
            ],
        },
        call("twice", vec![Expression::String("a".to_string())]),
        Statement::Expression(Expression::Identifier("y".to_string())),
        call("out", vec![lit(2)]),
    ];
    assert_eq!(
        i.interpret_with(program, &sink),
        Err(RuntimeError::UndefinedVariable("y".to_string()))
    );
    let expected = vec!["1".to_string(), "a".to_string(), "a".to_string()];
    assert_eq!(*heard.borrow(), expected);
    assert_eq!(i.take_output(), expected);
    assert!(same(i.interpret(vec![call("out", vec![lit(3)])]), Value::Null));
    assert_eq!(*heard.borrow(), expected);
    assert_eq!(i.take_output(), vec!["3".to_string()]);
}

#[test]
fn an_evaluator_with_a_callback() {
    let heard: RefCell<Vec<String>> = RefCell::new(Vec::new());
    let mut wired = Interpreter::with_callback(|line: String| heard.borrow_mut().push(line));
    let program = vec![
        Statement::VarDeclaration { name: "n".to_string(), initializer: Some(lit(0)) },
        Statement::While {
            condition: Expression::binary(
                Expression::Identifier("n".to_string()),
                BinaryOperator::Less,
                lit(3),
            ),
            body: Box::new(Statement::Block(vec![
                call("out", vec![Expression::Identifier("n".to_string())]),
                Statement::Expression(Expression::binary(
                    Expression::Identifier("n".to_string()),
                    BinaryOperator::Assign,
                    Expression::binary(
                        Expression::Identifier("n".to_string()),
                        BinaryOperator::Add,
                        lit(1),
                    ),
                )),
            ])),
        },
    ];
    assert!(same(wired.interpret(program), whole(3)));
    assert_eq!(*heard.borrow(), vec!["0".to_string(), "1".to_string(), "2".to_string()]);
    assert_eq!(wired.output().len(), 3);
    assert_eq!(wired.take_output().len(), 3);
    assert!(same(
        wired.interpret(vec![Statement::Expression(Expression::Identifier("n".to_string()))]),
        whole(3)
    ));
    assert_eq!(
        wired.interpret(vec![call("out", vec![])]),
        Err(RuntimeError::InvalidArgumentCount { expected: 1, got: 0 })
    );
    assert_eq!(heard.borrow().len(), 3);
}

#[test]
fn a_statement_may_start_with_a_name_and_go_on() {
    assert!(same(run("var x = 1; x + 1;"), whole(2)));
    assert!(same(run("var x = 2; x * x - 1;"), whole(3)));
    assert!(same(run("var x = 2; x == 2;"), Value::Boolean(true)));
    assert!(same(run("var n; n == n;"), Value::Boolean(true)));
    assert_eq!(run("y + 1;"), Err(RuntimeError::UndefinedVariable("y".to_string())));
}

#[test]
fn a_switch_on_a_function_matches_no_case() {
    assert!(same(run("switch (round) { case round: 1; default: 2; }"), whole(2)));
}
