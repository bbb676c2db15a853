use stack::{
    builtin, definition, expression, literal, procedure, program, statement, statements, string,
    Builtin, Expression, Literal, Procedure, Statement,
};

#[test]
fn statements_empty() {
    assert_eq!(statements(""), Ok((0, vec![])));
    assert_eq!(statements("\n"), Ok((1, vec![])));
}

#[test]
fn statements_one() {
    assert_eq!(
        statements("1"),
        Ok((1, vec![Statement::Expression(Expression::Literal(Literal::Number(1)))]))
    );
}

#[test]
fn comment() {
    assert_eq!(statements("# hello\n"), Ok((8, vec![])))
}

#[test]
fn builtins() {
    assert_eq!(builtin("+"), Ok((1, Builtin::Add)));
    assert_eq!(builtin("-"), Ok((1, Builtin::Sub)));
    assert_eq!(builtin("*"), Ok((1, Builtin::Mul)));
    assert_eq!(builtin("/"), Ok((1, Builtin::Div)));
    assert_eq!(builtin("="), Ok((1, Builtin::Eq)));
    assert_eq!(builtin("!"), Ok((1, Builtin::Neg)));
    assert_eq!(builtin("<"), Ok((1, Builtin::Lt)));
    assert_eq!(builtin("<="), Ok((2, Builtin::Le)));
    assert_eq!(builtin(">"), Ok((1, Builtin::Gt)));
    assert_eq!(builtin(">="), Ok((2, Builtin::Ge)));
    assert_eq!(builtin("dup"), Ok((3, Builtin::Dup)));
    assert_eq!(builtin("2dup"), Ok((4, Builtin::Dup2)));
    assert_eq!(builtin("swap"), Ok((4, Builtin::Swap)));
    assert_eq!(builtin("drop"), Ok((4, Builtin::Drop)));
    assert_eq!(builtin("2drop"), Ok((5, Builtin::Drop2)));
    assert_eq!(builtin("3drop"), Ok((5, Builtin::Drop3)));
    assert_eq!(builtin("over"), Ok((4, Builtin::Over)));
    assert_eq!(builtin("dupd"), Ok((4, Builtin::Dupd)));
    assert_eq!(builtin("rotl"), Ok((4, Builtin::Rotl)));
    assert_eq!(builtin("rotr"), Ok((4, Builtin::Rotr)));
    assert_eq!(builtin("keep"), Ok((4, Builtin::Keep)));
    assert_eq!(builtin("eval"), Ok((4, Builtin::Eval)));
    assert_eq!(builtin("println"), Ok((7, Builtin::Println)));
    assert_eq!(builtin("if"), Ok((2, Builtin::If)));
    assert_eq!(builtin("nth"), Ok((3, Builtin::Nth)));
}

#[test]
fn list() {
    let expected = Expression::List(vec![
        Expression::Literal(Literal::Number(1)),
        Expression::Literal(Literal::Number(2)),
        Expression::Literal(Literal::Number(3)),
    ]);
    assert_eq!(expression("[1 2 3]"), Ok((7, expected)));
    let expected = Expression::List(vec![
        Expression::Literal(Literal::Number(1)),
        Expression::Literal(Literal::Number(2)),
        Expression::Literal(Literal::Number(3)),
    ]);
    assert_eq!(expression("[1 2 3 ]"), Ok((8, expected)));
    let expected = Expression::List(vec![
        Expression::Literal(Literal::Number(1)),
        Expression::Literal(Literal::Number(2)),
        Expression::Literal(Literal::Number(3)),
    ]);
    assert_eq!(expression("[ 1 2 3]"), Ok((8, expected)));
    let expected = Expression::List(vec![
        Expression::Literal(Literal::Number(1)),
        Expression::Literal(Literal::Number(2)),
        Expression::Literal(Literal::Number(3)),
    ]);
    assert_eq!(expression("[ 1 2 3 ]"), Ok((9, expected)));
}

#[test]
fn definitions() {
    assert_eq!(
        definition("def inc { 1 + }"),
        Ok((
            15,
            Statement::Definition {
                identifier: "inc".to_string(),
                procedure: Procedure(vec![
                    Statement::Expression(Expression::Literal(Literal::Number(1))),
                    Statement::Builtin(Builtin::Add),
                ]),
            }
        ))
    );
}

#[test]
fn le_never_parses_as_lt() {
    assert_eq!(builtin("<="), Ok((2, Builtin::Le)));
    assert_eq!(builtin("<=3"), Ok((2, Builtin::Le)));
    assert_eq!(statement("<="), Ok((2, Statement::Builtin(Builtin::Le))));
}

#[test]
fn string_literals() {
    assert_eq!(string("\"hello\""), Ok((7, "hello".to_string())));
    assert_eq!(literal("\"a b\""), Ok((5, Literal::String("a b".to_string()))));
    // An empty string is rejected softly: the content needs a character.
    let e = string("\"\"").unwrap_err();
    assert!(!e.hard);
    // An unterminated string after the opening quote is a hard failure,
    // however short it is, and a backslash cannot close it.
    let e = string("\"abc").unwrap_err();
    assert!(e.hard);
    let e = string("\"").unwrap_err();
    assert!(e.hard);
    let e = string("\"\\x\"").unwrap_err();
    assert!(e.hard);
}

#[test]
fn booleans_and_words() {
    assert_eq!(stack::bool("true"), Ok((4, true)));
    assert_eq!(stack::bool("false"), Ok((5, false)));
    // At statement level a bare `true` is a word reference, not a literal.
    assert_eq!(statement("true"), Ok((4, Statement::Word("true".to_string()))));
    // Inside a list it is a boolean literal.
    assert_eq!(
        expression("[true]"),
        Ok((6, Expression::List(vec![Expression::Literal(Literal::Bool(true))])))
    );
}

#[test]
fn identifiers() {
    assert_eq!(stack::identifier("zero?"), Ok((5, "zero?".to_string())));
    assert_eq!(stack::identifier("_x1"), Ok((3, "_x1".to_string())));
    assert!(stack::identifier("1abc").is_err());
    // `definitely` is a word, not a definition.
    assert_eq!(
        statement("definitely"),
        Ok((10, Statement::Word("definitely".to_string())))
    );
}

#[test]
fn numbers() {
    assert_eq!(literal("42"), Ok((2, Literal::Number(42))));
    assert_eq!(literal("-7"), Ok((2, Literal::Number(-7))));
    assert_eq!(literal("+7"), Ok((2, Literal::Number(7))));
    assert_eq!(
        literal("9223372036854775807"),
        Ok((19, Literal::Number(i64::MAX)))
    );
    assert_eq!(
        literal("-9223372036854775808"),
        Ok((20, Literal::Number(i64::MIN)))
    );
    // One past the largest value is not a number literal.
    assert!(literal("9223372036854775808").is_err());
}

#[test]
fn procedures() {
    assert_eq!(procedure("{}"), Ok((2, Procedure(vec![]))));
    assert_eq!(
        procedure("{ dup }"),
        Ok((7, Procedure(vec![Statement::Builtin(Builtin::Dup)])))
    );
    // A missing closing brace is a hard failure.
    let e = procedure("{ dup").unwrap_err();
    assert!(e.hard);
}

#[test]
fn definition_commits() {
    // After `def ` the parser has committed: a malformed body is a hard
    // failure, not a fallback to reading `def` as a word.
    let e = statement("def inc 3").unwrap_err();
    assert!(e.hard);
}

#[test]
fn lists_commit() {
    // A missing closing bracket is a hard failure.
    let e = stack::list("[1 2").unwrap_err();
    assert!(e.hard);
}

#[test]
fn whole_programs() {
    let p = program("def inc { 1 + }\n5 inc # increment\n").unwrap();
    assert_eq!(p.statements.len(), 3);
    assert!(program("5 %").is_err());
    assert_eq!(program("").unwrap().statements, vec![]);
}
