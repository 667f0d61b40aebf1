use minilang::environment::Environment;
use minilang::error::RuntimeError;
use minilang::number::Number;
use minilang::value::Value;

fn whole(v: i32) -> Value {
    Value::Number(Number::from_whole(v))
}

#[test]
fn a_new_scope_binds_nothing() {
    let env = Environment::new();
    assert_eq!(env.get("x"), Err(RuntimeError::UndefinedVariable("x".to_string())));
    assert_eq!(env.get(""), Err(RuntimeError::UndefinedVariable(String::new())));
}

#[test]
fn define_then_get() {
    let mut env = Environment::new();
    env.define("x".to_string(), whole(1));
    env.define("y".to_string(), Value::String("s".to_string()));
    assert_eq!(env.get("x"), Ok(whole(1)));
    assert_eq!(env.get("y"), Ok(Value::String("s".to_string())));
    assert_eq!(env.get("z"), Err(RuntimeError::UndefinedVariable("z".to_string())));
    env.define("x".to_string(), whole(2));
    assert_eq!(env.get("x"), Ok(whole(2)));
    assert_eq!(env.get("y"), Ok(Value::String("s".to_string())));
}

#[test]
fn assign_sets_the_innermost_binding() {
    let mut outer = Environment::new();
    outer.define("x".to_string(), whole(1));
    outer.define("y".to_string(), whole(10));
    let mut inner = Environment::with_enclosing(outer);
    assert_eq!(inner.get("x"), Ok(whole(1)));
    inner.define("x".to_string(), whole(2));
    assert_eq!(inner.get("x"), Ok(whole(2)));
    assert_eq!(inner.assign("x", whole(3)), Ok(()));
    assert_eq!(inner.get("x"), Ok(whole(3)));
    assert_eq!(inner.assign("y", whole(11)), Ok(()));
    assert_eq!(inner.get("y"), Ok(whole(11)));
    inner.pop_scope();
    assert_eq!(inner.get("x"), Ok(whole(1)));
    assert_eq!(inner.get("y"), Ok(whole(11)));
}

#[test]
fn assign_to_an_unknown_name_binds_nothing() {
    let mut env = Environment::with_enclosing(Environment::new());
    assert_eq!(
        env.assign("x", whole(1)),
        Err(RuntimeError::UndefinedVariable("x".to_string()))
    );
    assert_eq!(env.get("x"), Err(RuntimeError::UndefinedVariable("x".to_string())));
    env.pop_scope();
    assert_eq!(env.get("x"), Err(RuntimeError::UndefinedVariable("x".to_string())));
}

#[test]
fn scopes_open_and_close() {
    let mut env = Environment::new();
    env.define("a".to_string(), whole(1));
    env.push_scope();
    env.define("a".to_string(), whole(2));
    env.define("b".to_string(), whole(3));
    env.push_scope();
    assert_eq!(env.get("a"), Ok(whole(2)));
    assert_eq!(env.assign("b", whole(4)), Ok(()));
    env.pop_scope();
    assert_eq!(env.get("b"), Ok(whole(4)));
    env.pop_scope();
    assert_eq!(env.get("a"), Ok(whole(1)));
    assert_eq!(env.get("b"), Err(RuntimeError::UndefinedVariable("b".to_string())));
}

#[test]
fn values_compare_by_kind_and_content() {
    assert_eq!(whole(1), whole(1));
    assert_ne!(whole(1), whole(2));
    assert_ne!(whole(1), Value::String("1".to_string()));
    assert_eq!(Value::Null, Value::Null);
    assert_ne!(Value::Null, Value::Boolean(false));
    assert_eq!(Value::Boolean(true), Value::Boolean(true));
    assert_ne!(
        Value::NativeFunction("out".to_string()),
        Value::NativeFunction("out".to_string())
    );
    assert_ne!(
        Value::NativeFunction("out".to_string()),
        Value::NativeFunction("round".to_string())
    );
    let f = Value::Function { params: vec![], body: vec![] };
    assert_ne!(f.clone(), f);
    assert!(!f.equals(&f));
    assert!(whole(3).equals(&whole(3)));
}

#[test]
fn values_as_numbers() {
    assert_eq!(whole(3).as_number(), Ok(Number::from_whole(3)));
    assert_eq!(
        Value::Null.as_number(),
        Err(RuntimeError::TypeError("Expected a number".to_string()))
    );
    assert_eq!(
        Value::String("3".to_string()).as_number(),
        Err(RuntimeError::TypeError("Expected a number".to_string()))
    );
}

#[test]
fn values_as_text() {
    assert_eq!(whole(3).display_string(), "3");
    assert_eq!(whole(3).debug_string(), "3");
    assert_eq!(Value::String("a b".to_string()).display_string(), "a b");
    assert_eq!(Value::String("a b".to_string()).debug_string(), "\"a b\"");
    assert_eq!(Value::Boolean(true).display_string(), "true");
    assert_eq!(Value::Boolean(false).debug_string(), "false");
    assert_eq!(Value::Null.display_string(), "null");
    assert_eq!(Value::Null.debug_string(), "null");
    assert_eq!(
        Value::NativeFunction("out".to_string()).display_string(),
        "[Native Function: out]"
    );
    assert_eq!(Value::NativeFunction("out".to_string()).debug_string(), "<native fn out>");
    let f = Value::Function { params: vec!["a".to_string()], body: vec![] };
    assert_eq!(f.display_string(), "[Function]");
    assert_eq!(f.debug_string(), "<fn>");
}

#[test]
fn values_in_conditions() {
    assert!(whole(1).is_truthy());
    assert!(!whole(0).is_truthy());
    assert!(!Value::Null.is_truthy());
    assert!(!Value::String(String::new()).is_truthy());
    assert!(Value::String(" ".to_string()).is_truthy());
    assert!(Value::NativeFunction("x".to_string()).is_truthy());
}

#[test]
fn copies_of_values() {
    let list = vec![
        whole(1),
        Value::String("s".to_string()),
        Value::Boolean(true),
        Value::Null,
    ];
    for v in &list {
        assert_eq!(&v.duplicate(), v);
        assert_eq!(&v.clone(), v);
    }
    let built_in = Value::NativeFunction("out".to_string());
    assert!(matches!(built_in.duplicate(), Value::NativeFunction(name) if name == "out"));
    assert!(matches!(built_in.clone(), Value::NativeFunction(name) if name == "out"));
    assert!(!built_in.equals(&built_in));
    let f = Value::Function {
        params: vec!["a".to_string(), "b".to_string()],
        body: minilang::parser::parse("return a + b;").unwrap(),
    };
    match (f.duplicate(), f) {
        (
            Value::Function { params: copied_params, body: copied_body },
            Value::Function { params: params, body: body },
        ) => {
            assert_eq!(copied_params, params);
            assert_eq!(copied_body, body);
        }
        _ => panic!("no function"),
    }
}
