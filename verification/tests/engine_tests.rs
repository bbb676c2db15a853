use stack::{program, Builtin, Interpreter, Procedure, RuntimeError, Statement, Value};

fn run(itp: &mut Interpreter, source: &str) -> Result<Option<Value>, RuntimeError> {
    itp.run_program(program(source).unwrap())
}

fn run_fresh(source: &str) -> Result<Option<Value>, RuntimeError> {
    run(&mut Interpreter::new(), source)
}

#[test]
fn arithmetic() {
    assert_eq!(run_fresh("1 2 +"), Ok(Some(Value::Number(3))));
    assert_eq!(run_fresh("5 2 -"), Ok(Some(Value::Number(3))));
    assert_eq!(run_fresh("6 7 *"), Ok(Some(Value::Number(42))));
    assert_eq!(run_fresh("7 2 /"), Ok(Some(Value::Number(3))));
}

#[test]
fn division_truncates_toward_zero() {
    let mut itp = Interpreter::new();
    // -7 cannot stand bare at statement level, so compute it.
    assert_eq!(run(&mut itp, "0 7 - 2 /"), Ok(Some(Value::Number(-3))));
}

#[test]
fn arithmetic_type_mismatch() {
    let e = run_fresh("1 \"x\" +").unwrap_err();
    match e {
        RuntimeError::TypeMismatch { op, operands } => {
            assert_eq!(op, "+");
            assert_eq!(
                operands,
                vec![Value::Number(1), Value::String("x".to_string())]
            );
        }
        e => panic!("unexpected error {:?}", e),
    }
}

#[test]
fn division_by_zero_is_a_type_mismatch() {
    let e = run_fresh("1 0 /").unwrap_err();
    assert!(matches!(e, RuntimeError::TypeMismatch { .. }));
}

#[test]
fn dup_then_drop_is_a_no_op() {
    let mut itp = Interpreter::new();
    run(&mut itp, "1 2 3").unwrap();
    let before = vec![Value::Number(1), Value::Number(2), Value::Number(3)];
    assert_eq!(itp.stack, before);
    run(&mut itp, "dup drop").unwrap();
    assert_eq!(itp.stack, before);
}

#[test]
fn swap_twice_is_a_no_op() {
    let mut itp = Interpreter::new();
    run(&mut itp, "1 2").unwrap();
    run(&mut itp, "swap swap").unwrap();
    assert_eq!(itp.stack, vec![Value::Number(1), Value::Number(2)]);
    run(&mut itp, "swap").unwrap();
    assert_eq!(itp.stack, vec![Value::Number(2), Value::Number(1)]);
}

#[test]
fn arity_errors_name_the_operation_and_counts() {
    let mut itp = Interpreter::new();
    run(&mut itp, "1").unwrap();
    let e = run(&mut itp, "+").unwrap_err();
    assert_eq!(
        e,
        RuntimeError::Arity { op: "+".to_string(), expected: 2, actual: 1 }
    );
    // The stack is left unmutated.
    assert_eq!(itp.stack, vec![Value::Number(1)]);
    let e = run(&mut itp, "swap").unwrap_err();
    assert_eq!(
        e,
        RuntimeError::Arity { op: "swap".to_string(), expected: 2, actual: 1 }
    );
    let e = run_fresh("if").unwrap_err();
    assert_eq!(
        e,
        RuntimeError::Arity { op: "if".to_string(), expected: 3, actual: 0 }
    );
}

#[test]
fn eval_applies_a_procedure() {
    let mut itp = Interpreter::new();
    assert_eq!(run(&mut itp, "5 { 1 + } eval"), Ok(Some(Value::Number(6))));
    assert_eq!(itp.stack, vec![Value::Number(6)]);
}

#[test]
fn eval_refuses_a_non_procedure() {
    let e = run_fresh("[5] eval").unwrap_err();
    match e {
        RuntimeError::TypeMismatch { op, operands } => {
            assert_eq!(op, "eval");
            assert_eq!(operands, vec![Value::List(vec![Value::Number(5)])]);
        }
        e => panic!("unexpected error {:?}", e),
    }
}

#[test]
fn if_selects_the_branch() {
    // `true` and `false` are words at statement level, so pull the booleans
    // out of lists.
    assert_eq!(
        run_fresh("0 [true] nth {1} {2} if"),
        Ok(Some(Value::Number(1)))
    );
    assert_eq!(
        run_fresh("0 [false] nth {1} {2} if"),
        Ok(Some(Value::Number(2)))
    );
}

#[test]
fn if_refuses_a_non_procedure_branch() {
    let e = run_fresh("0 [true] nth 1 {2} if").unwrap_err();
    assert!(matches!(e, RuntimeError::TypeMismatch { .. }));
}

#[test]
fn definitions_bind_words() {
    let mut itp = Interpreter::new();
    run(&mut itp, "def inc { 1 + }").unwrap();
    assert_eq!(run(&mut itp, "5 inc"), Ok(Some(Value::Number(6))));
    // The last definition for a name wins.
    run(&mut itp, "def inc { 2 + }").unwrap();
    assert_eq!(run(&mut itp, "5 inc"), Ok(Some(Value::Number(7))));
}

#[test]
fn undefined_words_are_unresolved() {
    let e = run_fresh("frobnicate").unwrap_err();
    assert_eq!(
        e,
        RuntimeError::UnresolvedIdentifier { identifier: "frobnicate".to_string() }
    );
}

#[test]
fn nth_indexes_lists() {
    assert_eq!(run_fresh("0 [10 20 30] nth"), Ok(Some(Value::Number(10))));
    assert_eq!(run_fresh("2 [10 20 30] nth"), Ok(Some(Value::Number(30))));
    let e = run_fresh("5 [10 20 30] nth").unwrap_err();
    assert_eq!(e, RuntimeError::IndexOutOfRange { index: 5, length: 3 });
    let e = run_fresh("0 5 - [10 20 30] nth").unwrap_err();
    assert_eq!(e, RuntimeError::IndexOutOfRange { index: -5, length: 3 });
    let e = run_fresh("[10] 0 nth").unwrap_err();
    assert!(matches!(e, RuntimeError::TypeMismatch { .. }));
}

#[test]
fn stack_shufflers() {
    let mut itp = Interpreter::new();
    run(&mut itp, "1 2 2dup").unwrap();
    assert_eq!(
        itp.stack,
        vec![Value::Number(1), Value::Number(2), Value::Number(1), Value::Number(2)]
    );
    run(&mut itp, "2drop 2drop").unwrap();
    assert_eq!(itp.stack, vec![]);
    run(&mut itp, "1 2 3 rotl").unwrap();
    assert_eq!(
        itp.stack,
        vec![Value::Number(2), Value::Number(3), Value::Number(1)]
    );
    run(&mut itp, "3drop 1 2 3 rotr").unwrap();
    assert_eq!(
        itp.stack,
        vec![Value::Number(3), Value::Number(1), Value::Number(2)]
    );
    run(&mut itp, "3drop 1 2 over").unwrap();
    assert_eq!(
        itp.stack,
        vec![Value::Number(1), Value::Number(2), Value::Number(1)]
    );
    run(&mut itp, "3drop 1 2 dupd").unwrap();
    assert_eq!(
        itp.stack,
        vec![Value::Number(1), Value::Number(1), Value::Number(2)]
    );
}

#[test]
fn keep_restores_the_value_under_the_result() {
    let mut itp = Interpreter::new();
    run(&mut itp, "5 { 1 + } keep").unwrap();
    assert_eq!(itp.stack, vec![Value::Number(6), Value::Number(5)]);
}

#[test]
fn println_collects_output() {
    let mut itp = Interpreter::new();
    run(&mut itp, "\"hello\" println 42 println [1 2] println").unwrap();
    assert_eq!(
        itp.output,
        vec!["hello".to_string(), "42".to_string(), "[ 1 2 ]".to_string()]
    );
}

#[test]
fn comparisons() {
    assert_eq!(run_fresh("1 2 <"), Ok(Some(Value::Bool(true))));
    assert_eq!(run_fresh("2 2 <"), Ok(Some(Value::Bool(false))));
    assert_eq!(run_fresh("2 2 <="), Ok(Some(Value::Bool(true))));
    assert_eq!(run_fresh("3 2 >"), Ok(Some(Value::Bool(true))));
    assert_eq!(run_fresh("2 3 >="), Ok(Some(Value::Bool(false))));
    assert_eq!(run_fresh("\"abc\" \"abd\" <"), Ok(Some(Value::Bool(true))));
    // Values of different kinds order by their kind.
    assert_eq!(run_fresh("1 \"a\" <"), Ok(Some(Value::Bool(true))));
}

#[test]
fn equality_is_structural() {
    assert_eq!(run_fresh("[1 [2]] [1 [2]] ="), Ok(Some(Value::Bool(true))));
    assert_eq!(run_fresh("[1 [2]] [1 [3]] ="), Ok(Some(Value::Bool(false))));
    assert_eq!(run_fresh("{ 1 + } { 1 + } ="), Ok(Some(Value::Bool(true))));
    assert_eq!(run_fresh("1 \"1\" ="), Ok(Some(Value::Bool(false))));
}

#[test]
fn negation() {
    assert_eq!(run_fresh("0 [true] nth !"), Ok(Some(Value::Bool(false))));
    let e = run_fresh("1 !").unwrap_err();
    assert!(matches!(e, RuntimeError::TypeMismatch { .. }));
}

#[test]
fn wrapping_arithmetic() {
    let mut itp = Interpreter::new();
    run(&mut itp, "9223372036854775807 1 +").unwrap();
    assert_eq!(itp.stack, vec![Value::Number(i64::MIN)]);
}

#[test]
fn recursion_through_words() {
    // A word may invoke itself; the pending queue, not the host stack,
    // carries the control flow.
    let mut itp = Interpreter::new();
    run(&mut itp, "def count { dup 100 < { 1 + count } { } if }").unwrap();
    assert_eq!(run(&mut itp, "0 count"), Ok(Some(Value::Number(100))));
}

#[test]
fn state_persists_across_runs() {
    let mut itp = Interpreter::new();
    run(&mut itp, "1 2").unwrap();
    run(&mut itp, "def three { 3 }").unwrap();
    assert_eq!(run(&mut itp, "three +"), Ok(Some(Value::Number(5))));
    assert_eq!(itp.stack, vec![Value::Number(1), Value::Number(5)]);
}

#[test]
fn empty_program_leaves_no_top() {
    assert_eq!(run_fresh(""), Ok(None));
}

#[test]
fn errors_keep_prior_effects() {
    let mut itp = Interpreter::new();
    let e = run(&mut itp, "def x { 7 } 1 2 + frobnicate 9");
    assert!(e.is_err());
    // Effects before the failing statement remain: the definition and the sum.
    assert_eq!(itp.stack, vec![Value::Number(3)]);
    assert_eq!(run(&mut itp, "x"), Ok(Some(Value::Number(7))));
}

#[test]
fn step_executes_one_statement() {
    let mut itp = Interpreter::new();
    let prog = program("1 2 +").unwrap();
    for st in prog.statements {
        itp.statements.push_back(st);
    }
    assert_eq!(itp.step(), Ok(true));
    assert_eq!(itp.stack, vec![Value::Number(1)]);
    assert_eq!(itp.step(), Ok(true));
    assert_eq!(itp.step(), Ok(true));
    assert_eq!(itp.step(), Ok(false));
    assert_eq!(itp.stack, vec![Value::Number(3)]);
}

#[test]
fn run_statements_reports_completion() {
    let mut itp = Interpreter::new();
    let prog = program("1 2 + 4 *").unwrap();
    for st in prog.statements {
        itp.statements.push_back(st);
    }
    assert_eq!(itp.run_statements(u64::MAX), Ok(true));
    assert_eq!(itp.stack, vec![Value::Number(12)]);
}

#[test]
fn procedures_are_data_until_evaluated() {
    let mut itp = Interpreter::new();
    run(&mut itp, "{ 1 + }").unwrap();
    assert_eq!(
        itp.stack,
        vec![Value::Procedure(Procedure(vec![
            Statement::Expression(stack::Expression::Literal(stack::Literal::Number(1))),
            Statement::Builtin(Builtin::Add),
        ]))]
    );
}
