use stack::{value_cmp, value_eq, Builtin, Expression, Literal, Order, Procedure, RuntimeError, Statement, Value};

#[test]
fn numbers_render() {
    assert_eq!(Value::Number(0).to_text(), "0");
    assert_eq!(Value::Number(42).to_text(), "42");
    assert_eq!(Value::Number(-7).to_text(), "-7");
    assert_eq!(Value::Number(i64::MAX).to_text(), "9223372036854775807");
    assert_eq!(Value::Number(i64::MIN).to_text(), "-9223372036854775808");
}

#[test]
fn scalars_render() {
    assert_eq!(Value::Bool(true).to_text(), "true");
    assert_eq!(Value::Bool(false).to_text(), "false");
    assert_eq!(Value::String("hi".to_string()).to_text(), "\"hi\"");
}

#[test]
fn lists_render() {
    assert_eq!(Value::List(vec![]).to_text(), "[]");
    assert_eq!(
        Value::List(vec![Value::Number(1), Value::Bool(true)]).to_text(),
        "[ 1 true ]"
    );
    assert_eq!(
        Value::List(vec![Value::List(vec![Value::Number(2)])]).to_text(),
        "[ [ 2 ] ]"
    );
}

#[test]
fn procedures_render() {
    assert_eq!(Value::Procedure(Procedure(vec![])).to_text(), "{}");
    let p = Procedure(vec![
        Statement::Expression(Expression::Literal(Literal::Number(1))),
        Statement::Builtin(Builtin::Add),
    ]);
    assert_eq!(p.to_text(), "{ 1 + }");
    assert_eq!(Value::Procedure(p).to_text(), "{ 1 + }");
}

#[test]
fn statements_render() {
    assert_eq!(Statement::Word("inc".to_string()).to_text(), "inc");
    assert_eq!(Statement::Builtin(Builtin::Le).to_text(), "<=");
    assert_eq!(
        Statement::Definition {
            identifier: "inc".to_string(),
            procedure: Procedure(vec![
                Statement::Expression(Expression::Literal(Literal::Number(1))),
                Statement::Builtin(Builtin::Add),
            ]),
        }
        .to_text(),
        "def inc { 1 + }"
    );
}

#[test]
fn builtin_tokens() {
    assert_eq!(Builtin::Add.to_str(), "+");
    assert_eq!(Builtin::Le.to_str(), "<=");
    assert_eq!(Builtin::Dup2.to_str(), "2dup");
    assert_eq!(Builtin::If.to_str(), "if");
    assert_eq!(Builtin::Println.to_str(), "println");
    assert_eq!(Builtin::Add.arity(), 2);
    assert_eq!(Builtin::If.arity(), 3);
    assert_eq!(Builtin::Drop3.arity(), 3);
}

#[test]
fn errors_render() {
    let e = RuntimeError::Arity { op: "+".to_string(), expected: 2, actual: 1 };
    assert_eq!(e.render(), "Operation `+` expected 2 argument(s), got 1");
    let e = RuntimeError::UnresolvedIdentifier { identifier: "foo".to_string() };
    assert_eq!(e.render(), "Couldn't resolve identifier \"foo\"");
    let e = RuntimeError::IndexOutOfRange { index: 5, length: 3 };
    assert_eq!(e.render(), "Index 5 out of bounds for length 3");
    let e = RuntimeError::TypeMismatch {
        op: "+".to_string(),
        operands: vec![Value::Number(1), Value::Bool(true)],
    };
    assert_eq!(e.render(), "Can't apply `+` to 1 true");
}

#[test]
fn values_compare_structurally() {
    let a = Value::List(vec![Value::Number(1), Value::Number(2)]);
    let b = Value::List(vec![Value::Number(1), Value::Number(3)]);
    assert!(value_eq(&a, &a.deep_clone()));
    assert!(!value_eq(&a, &b));
    assert_eq!(value_cmp(&a, &b), Order::Less);
    assert_eq!(value_cmp(&b, &a), Order::Greater);
    assert_eq!(value_cmp(&a, &a), Order::Equal);
    // Different kinds order by kind: booleans before numbers before strings.
    assert_eq!(
        value_cmp(&Value::Bool(true), &Value::Number(0)),
        Order::Less
    );
    assert_eq!(
        value_cmp(&Value::String("a".to_string()), &Value::Number(0)),
        Order::Greater
    );
}

#[test]
fn parsing_inverts_rendering() {
    let values = vec![
        Value::Number(0),
        Value::Number(42),
        Value::Number(-7),
        Value::Number(i64::MIN),
        Value::Bool(true),
        Value::Bool(false),
        Value::String("hi there".to_string()),
        Value::List(vec![]),
        Value::List(vec![
            Value::Number(1),
            Value::List(vec![Value::Bool(false), Value::String("x".to_string())]),
        ]),
        Value::Procedure(Procedure(vec![])),
        Value::Procedure(Procedure(vec![
            Statement::Expression(Expression::Literal(Literal::Number(1))),
            Statement::Builtin(Builtin::Add),
            Statement::Word("inc".to_string()),
            Statement::Definition {
                identifier: "twice".to_string(),
                procedure: Procedure(vec![
                    Statement::Builtin(Builtin::Dup),
                    Statement::Builtin(Builtin::Add),
                ]),
            },
            Statement::Expression(Expression::List(vec![Expression::Literal(Literal::Bool(
                true,
            ))])),
        ])),
    ];
    for v in values {
        let rendered = v.to_text();
        let (consumed, e) = stack::expression(&rendered).unwrap();
        assert_eq!(consumed, rendered.chars().count());
        assert!(value_eq(&Value::of_expression(&e), &v));
    }
}
