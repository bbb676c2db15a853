//! Runtime values and the structural operations on them: deep cloning,
//! structural equality, structural ordering, and the arithmetic and logic
//! primitives.
use vstd::prelude::*;
use vstd::string::StrSliceExecFns;
use vstd::wrapping::i64_specs;
use crate::ast::{builtin_token, Builtin, Expression, Literal, Procedure, Statement};
use crate::error::{err_view, RtErrV, RuntimeError};
use crate::model::{
    expr_view, exprs_view, lemma_exprs_view, lemma_stmts_view, lemma_values_view,
    lemma_values_of_exprs, lit_view, stmt_view, stmts_view, value_of_expr, value_of_lit,
    value_view, values_of_exprs, values_view, ExpressionV, LiteralV, StatementV, ValueV,
};

verus! {

/// A runtime value: a closed tagged union with value semantics.
#[derive(Debug, PartialEq)]
pub enum Value {
    /// A boolean value.
    Bool(bool),
    /// A numerical value represented as a 64-bit signed integer.
    Number(i64),
    /// A textual value represented as a `String`.
    String(String),
    /// A procedure.
    Procedure(Procedure),
    /// A list.
    List(Vec<Value>),
}

/// The result of a three-way structural comparison.
#[derive(Debug, Clone, Copy, PartialEq, Eq, Structural)]
pub enum Order {
    Less,
    Equal,
    Greater,
}

/// Rank of a value's variant; values of different variants order by rank.
pub open spec fn value_rank(v: ValueV) -> int {
    match v {
        ValueV::Bool(_) => 0,
        ValueV::Number(_) => 1,
        ValueV::Text(_) => 2,
        ValueV::Procedure(_) => 3,
        ValueV::List(_) => 4,
    }
}

/// Rank of a statement's variant.
pub open spec fn stmt_rank(s: StatementV) -> int {
    match s {
        StatementV::Expression(_) => 0,
        StatementV::Builtin(_) => 1,
        StatementV::Value(_) => 2,
        StatementV::Definition { .. } => 3,
        StatementV::Word(_) => 4,
    }
}

/// Rank of an expression's variant.
pub open spec fn expr_rank(e: ExpressionV) -> int {
    match e {
        ExpressionV::Literal(_) => 0,
        ExpressionV::Procedure(_) => 1,
        ExpressionV::List(_) => 2,
    }
}

/// Rank of a literal's variant.
pub open spec fn lit_rank(l: LiteralV) -> int {
    match l {
        LiteralV::Bool(_) => 0,
        LiteralV::Number(_) => 1,
        LiteralV::Text(_) => 2,
    }
}

/// Rank of a builtin, in declaration order.
pub open spec fn builtin_rank(b: Builtin) -> int {
    match b {
        Builtin::Add => 0,
        Builtin::Sub => 1,
        Builtin::Mul => 2,
        Builtin::Div => 3,
        Builtin::Eq => 4,
        Builtin::Neg => 5,
        Builtin::Lt => 6,
        Builtin::Le => 7,
        Builtin::Gt => 8,
        Builtin::Ge => 9,
        Builtin::Dup => 10,
        Builtin::Dup2 => 11,
        Builtin::Swap => 12,
        Builtin::Drop => 13,
        Builtin::Drop2 => 14,
        Builtin::Drop3 => 15,
        Builtin::Over => 16,
        Builtin::Dupd => 17,
        Builtin::Rotl => 18,
        Builtin::Rotr => 19,
        Builtin::Keep => 20,
        Builtin::Eval => 21,
        Builtin::Println => 22,
        Builtin::If => 23,
        Builtin::Nth => 24,
    }
}

pub open spec fn order_of_ints(a: int, b: int) -> Order {
    if a < b {
        Order::Less
    } else if a == b {
        Order::Equal
    } else {
        Order::Greater
    }
}

pub open spec fn order_of_bools(a: bool, b: bool) -> Order {
    order_of_ints(if a { 1int } else { 0int }, if b { 1int } else { 0int })
}

/// Lexicographic comparison of two texts by character code.
pub open spec fn cmp_text(a: Seq<char>, b: Seq<char>) -> Order
    decreases a,
{
    if a.len() == 0 && b.len() == 0 {
        Order::Equal
    } else if a.len() == 0 {
        Order::Less
    } else if b.len() == 0 {
        Order::Greater
    } else if a[0] != b[0] {
        order_of_ints(a[0] as int, b[0] as int)
    } else {
        cmp_text(a.drop_first(), b.drop_first())
    }
}

/// Structural, recursive ordering of values: different variants order by
/// rank, equal variants compare componentwise, sequences lexicographically.
pub open spec fn cmp_value(a: ValueV, b: ValueV) -> Order
    decreases a, 0nat,
{
    if value_rank(a) != value_rank(b) {
        order_of_ints(value_rank(a), value_rank(b))
    } else {
        match (a, b) {
            (ValueV::Bool(x), ValueV::Bool(y)) => order_of_bools(x, y),
            (ValueV::Number(x), ValueV::Number(y)) => order_of_ints(x, y),
            (ValueV::Text(x), ValueV::Text(y)) => cmp_text(x, y),
            (ValueV::Procedure(x), ValueV::Procedure(y)) => cmp_stmts(x, y),
            (ValueV::List(x), ValueV::List(y)) => cmp_values(x, y),
            _ => Order::Equal,
        }
    }
}

pub open spec fn cmp_values(a: Seq<ValueV>, b: Seq<ValueV>) -> Order
    decreases a, 1nat,
{
    if a.len() == 0 && b.len() == 0 {
        Order::Equal
    } else if a.len() == 0 {
        Order::Less
    } else if b.len() == 0 {
        Order::Greater
    } else {
        match cmp_value(a[0], b[0]) {
            Order::Equal => cmp_values(a.drop_first(), b.drop_first()),
            o => o,
        }
    }
}

pub open spec fn cmp_stmt(a: StatementV, b: StatementV) -> Order
    decreases a, 0nat,
{
    if stmt_rank(a) != stmt_rank(b) {
        order_of_ints(stmt_rank(a), stmt_rank(b))
    } else {
        match (a, b) {
            (StatementV::Expression(x), StatementV::Expression(y)) => cmp_expr(x, y),
            (StatementV::Builtin(x), StatementV::Builtin(y)) => order_of_ints(
                builtin_rank(x),
                builtin_rank(y),
            ),
            (StatementV::Value(x), StatementV::Value(y)) => cmp_value(x, y),
            (
                StatementV::Definition { identifier: ia, procedure: pa },
                StatementV::Definition { identifier: ib, procedure: pb },
            ) => match cmp_text(ia, ib) {
                Order::Equal => cmp_stmts(pa, pb),
                o => o,
            },
            (StatementV::Word(x), StatementV::Word(y)) => cmp_text(x, y),
            _ => Order::Equal,
        }
    }
}

pub open spec fn cmp_stmts(a: Seq<StatementV>, b: Seq<StatementV>) -> Order
    decreases a, 1nat,
{
    if a.len() == 0 && b.len() == 0 {
        Order::Equal
    } else if a.len() == 0 {
        Order::Less
    } else if b.len() == 0 {
        Order::Greater
    } else {
        match cmp_stmt(a[0], b[0]) {
            Order::Equal => cmp_stmts(a.drop_first(), b.drop_first()),
            o => o,
        }
    }
}

pub open spec fn cmp_expr(a: ExpressionV, b: ExpressionV) -> Order
    decreases a, 0nat,
{
    if expr_rank(a) != expr_rank(b) {
        order_of_ints(expr_rank(a), expr_rank(b))
    } else {
        match (a, b) {
            (ExpressionV::Literal(x), ExpressionV::Literal(y)) => cmp_lit(x, y),
            (ExpressionV::Procedure(x), ExpressionV::Procedure(y)) => cmp_stmts(x, y),
            (ExpressionV::List(x), ExpressionV::List(y)) => cmp_exprs(x, y),
            _ => Order::Equal,
        }
    }
}

pub open spec fn cmp_exprs(a: Seq<ExpressionV>, b: Seq<ExpressionV>) -> Order
    decreases a, 1nat,
{
    if a.len() == 0 && b.len() == 0 {
        Order::Equal
    } else if a.len() == 0 {
        Order::Less
    } else if b.len() == 0 {
        Order::Greater
    } else {
        match cmp_expr(a[0], b[0]) {
            Order::Equal => cmp_exprs(a.drop_first(), b.drop_first()),
            o => o,
        }
    }
}

/// Three-way comparison of two string slices by character code.
pub fn str_cmp(a: &str, b: &str) -> (r: Order)
    ensures
        r == cmp_text(a@, b@),
{
    let alen = a.unicode_len();
    let blen = b.unicode_len();
    let mut i: usize = 0;
    proof {
        assert(a@.skip(0) =~= a@);
        assert(b@.skip(0) =~= b@);
    }
    loop
        invariant
            i <= alen,
            i <= blen,
            alen == a@.len(),
            blen == b@.len(),
            cmp_text(a@, b@) == cmp_text(a@.skip(i as int), b@.skip(i as int)),
        decreases alen - i,
    {
        if i == alen && i == blen {
            return Order::Equal;
        }
        if i == alen {
            return Order::Less;
        }
        if i == blen {
            return Order::Greater;
        }
        let ca = a.get_char(i);
        let cb = b.get_char(i);
        proof {
            assert(a@.skip(i as int)[0] == a@[i as int]);
            assert(b@.skip(i as int)[0] == b@[i as int]);
        }
        if (ca as u32) < (cb as u32) {
            return Order::Less;
        }
        if (ca as u32) > (cb as u32) {
            return Order::Greater;
        }
        proof {
            assert(ca == cb) by {
                assert(ca as u32 == cb as u32);
            }
            assert(a@.skip(i as int).drop_first() =~= a@.skip(i + 1 as int));
            assert(b@.skip(i as int).drop_first() =~= b@.skip(i + 1 as int));
        }
        i += 1;
    }
}

/// Structural equality of two values, per the recursive model equality.
pub fn value_eq(a: &Value, b: &Value) -> (r: bool)
    ensures
        r == (a@ == b@),
    decreases *a,
{
    match (a, b) {
        (Value::Bool(x), Value::Bool(y)) => *x == *y,
        (Value::Number(x), Value::Number(y)) => *x == *y,
        (Value::String(x), Value::String(y)) => *x == *y,
        (Value::Procedure(x), Value::Procedure(y)) => stmts_eq(&x.0, &y.0),
        (Value::List(xs), Value::List(ys)) => values_eq(xs, ys),
        _ => false,
    }
}

/// Structural equality of two value sequences.
pub fn values_eq(a: &Vec<Value>, b: &Vec<Value>) -> (r: bool)
    ensures
        r == (values_view(a@) == values_view(b@)),
    decreases a@,
{
    proof {
        lemma_values_view(a@);
        lemma_values_view(b@);
    }
    if a.len() != b.len() {
        return false;
    }
    let mut i: usize = 0;
    while i < a.len()
        invariant
            i <= a.len(),
            a.len() == b.len(),
            forall|j: int| 0 <= j < i ==> value_view(a@[j]) == value_view(b@[j]),
        decreases a.len() - i,
    {
        if !value_eq(&a[i], &b[i]) {
            proof {
                lemma_values_view(a@);
                lemma_values_view(b@);
                assert(values_view(a@)[i as int] != values_view(b@)[i as int]);
            }
            return false;
        }
        i += 1;
    }
    proof {
        lemma_values_view(a@);
        lemma_values_view(b@);
        assert(values_view(a@) =~= values_view(b@));
    }
    true
}

/// Structural equality of two statement sequences.
pub fn stmts_eq(a: &Vec<Statement>, b: &Vec<Statement>) -> (r: bool)
    ensures
        r == (stmts_view(a@) == stmts_view(b@)),
    decreases a@,
{
    proof {
        lemma_stmts_view(a@);
        lemma_stmts_view(b@);
    }
    if a.len() != b.len() {
        return false;
    }
    let mut i: usize = 0;
    while i < a.len()
        invariant
            i <= a.len(),
            a.len() == b.len(),
            forall|j: int| 0 <= j < i ==> stmt_view(a@[j]) == stmt_view(b@[j]),
        decreases a.len() - i,
    {
        if !stmt_eq(&a[i], &b[i]) {
            proof {
                lemma_stmts_view(a@);
                lemma_stmts_view(b@);
                assert(stmts_view(a@)[i as int] != stmts_view(b@)[i as int]);
            }
            return false;
        }
        i += 1;
    }
    proof {
        lemma_stmts_view(a@);
        lemma_stmts_view(b@);
        assert(stmts_view(a@) =~= stmts_view(b@));
    }
    true
}

/// Structural equality of two statements.
pub fn stmt_eq(a: &Statement, b: &Statement) -> (r: bool)
    ensures
        r == (a@ == b@),
    decreases *a,
{
    match (a, b) {
        (Statement::Expression(x), Statement::Expression(y)) => expr_eq(x, y),
        (Statement::Builtin(x), Statement::Builtin(y)) => *x == *y,
        (Statement::Value(x), Statement::Value(y)) => value_eq(x, y),
        (
            Statement::Definition { identifier: ia, procedure: pa },
            Statement::Definition { identifier: ib, procedure: pb },
        ) => {
            if !(*ia == *ib) {
                return false;
            }
            stmts_eq(&pa.0, &pb.0)
        },
        (Statement::Word(x), Statement::Word(y)) => *x == *y,
        _ => false,
    }
}

/// Structural equality of two expressions.
pub fn expr_eq(a: &Expression, b: &Expression) -> (r: bool)
    ensures
        r == (a@ == b@),
    decreases *a,
{
    match (a, b) {
        (Expression::Literal(x), Expression::Literal(y)) => lit_eq(x, y),
        (Expression::Procedure(x), Expression::Procedure(y)) => stmts_eq(&x.0, &y.0),
        (Expression::List(xs), Expression::List(ys)) => exprs_eq(xs, ys),
        _ => false,
    }
}

/// Structural equality of two expression sequences.
pub fn exprs_eq(a: &Vec<Expression>, b: &Vec<Expression>) -> (r: bool)
    ensures
        r == (exprs_view(a@) == exprs_view(b@)),
    decreases a@,
{
    proof {
        lemma_exprs_view(a@);
        lemma_exprs_view(b@);
    }
    if a.len() != b.len() {
        return false;
    }
    let mut i: usize = 0;
    while i < a.len()
        invariant
            i <= a.len(),
            a.len() == b.len(),
            forall|j: int| 0 <= j < i ==> expr_view(a@[j]) == expr_view(b@[j]),
        decreases a.len() - i,
    {
        if !expr_eq(&a[i], &b[i]) {
            proof {
                lemma_exprs_view(a@);
                lemma_exprs_view(b@);
                assert(exprs_view(a@)[i as int] != exprs_view(b@)[i as int]);
            }
            return false;
        }
        i += 1;
    }
    proof {
        lemma_exprs_view(a@);
        lemma_exprs_view(b@);
        assert(exprs_view(a@) =~= exprs_view(b@));
    }
    true
}

/// Structural equality of two literals.
pub fn lit_eq(a: &Literal, b: &Literal) -> (r: bool)
    ensures
        r == (a@ == b@),
{
    match (a, b) {
        (Literal::Bool(x), Literal::Bool(y)) => *x == *y,
        (Literal::Number(x), Literal::Number(y)) => *x == *y,
        (Literal::String(x), Literal::String(y)) => *x == *y,
        _ => false,
    }
}

pub open spec fn cmp_lit(a: LiteralV, b: LiteralV) -> Order {
    if lit_rank(a) != lit_rank(b) {
        order_of_ints(lit_rank(a), lit_rank(b))
    } else {
        match (a, b) {
            (LiteralV::Bool(x), LiteralV::Bool(y)) => order_of_bools(x, y),
            (LiteralV::Number(x), LiteralV::Number(y)) => order_of_ints(x, y),
            (LiteralV::Text(x), LiteralV::Text(y)) => cmp_text(x, y),
            _ => Order::Equal,
        }
    }
}

/// The view of an operation result.
pub open spec fn res_view(r: Result<Value, RuntimeError>) -> Result<ValueV, RtErrV> {
    match r {
        Ok(v) => Ok(value_view(v)),
        Err(e) => Err(err_view(e)),
    }
}

/// 64-bit wrapping addition on the numeric model.
pub open spec fn wrap_add(x: int, y: int) -> int {
    i64_specs::wrapping_add(x as i64, y as i64) as int
}

/// 64-bit wrapping subtraction on the numeric model.
pub open spec fn wrap_sub(x: int, y: int) -> int {
    i64_specs::wrapping_sub(x as i64, y as i64) as int
}

/// 64-bit wrapping multiplication on the numeric model.
pub open spec fn wrap_mul(x: int, y: int) -> int {
    i64_specs::wrapping_mul(x as i64, y as i64) as int
}

/// Division truncated toward zero, expressed over Euclidean division.
pub open spec fn div_trunc(x: int, d: int) -> int {
    if x == 0 {
        0
    } else if x > 0 && d > 0 {
        x / d
    } else if x < 0 && d < 0 {
        (x * -1) / (d * -1)
    } else if x < 0 {
        ((x * -1) / d) * -1
    } else {
        (x / (d * -1)) * -1
    }
}

/// 64-bit wrapping truncated division; the one overflowing case, the
/// smallest value divided by minus one, wraps back to the smallest value.
pub open spec fn wrap_div(x: int, y: int) -> int {
    let out = div_trunc(x as i64 as int, y as i64 as int);
    if out > i64::MAX as int || out < i64::MIN as int {
        i64::MIN as int
    } else {
        out
    }
}

/// What `+` returns: the wrapping sum of two numbers, a type mismatch on
/// anything else.
pub open spec fn add_values(a: ValueV, b: ValueV) -> Result<ValueV, RtErrV> {
    match (a, b) {
        (ValueV::Number(x), ValueV::Number(y)) => Ok(ValueV::Number(wrap_add(x, y))),
        _ => Err(RtErrV::TypeMismatch { op: seq!['+'], operands: seq![a, b] }),
    }
}

/// What `-` returns.
pub open spec fn sub_values(a: ValueV, b: ValueV) -> Result<ValueV, RtErrV> {
    match (a, b) {
        (ValueV::Number(x), ValueV::Number(y)) => Ok(ValueV::Number(wrap_sub(x, y))),
        _ => Err(RtErrV::TypeMismatch { op: seq!['-'], operands: seq![a, b] }),
    }
}

/// What `*` returns.
pub open spec fn mul_values(a: ValueV, b: ValueV) -> Result<ValueV, RtErrV> {
    match (a, b) {
        (ValueV::Number(x), ValueV::Number(y)) => Ok(ValueV::Number(wrap_mul(x, y))),
        _ => Err(RtErrV::TypeMismatch { op: seq!['*'], operands: seq![a, b] }),
    }
}

/// What `/` returns: truncated division of two numbers; dividing by zero or
/// dividing a non-number is a type mismatch.
pub open spec fn div_values(a: ValueV, b: ValueV) -> Result<ValueV, RtErrV> {
    match (a, b) {
        (ValueV::Number(x), ValueV::Number(y)) => if y == 0 {
            Err(RtErrV::TypeMismatch { op: seq!['/'], operands: seq![a, b] })
        } else {
            Ok(ValueV::Number(wrap_div(x, y)))
        },
        _ => Err(RtErrV::TypeMismatch { op: seq!['/'], operands: seq![a, b] }),
    }
}

/// What `!` returns: logical negation of a boolean, a type mismatch on
/// anything else.
pub open spec fn not_value(a: ValueV) -> Result<ValueV, RtErrV> {
    match a {
        ValueV::Bool(x) => Ok(ValueV::Bool(!x)),
        _ => Err(RtErrV::TypeMismatch { op: seq!['!'], operands: seq![a] }),
    }
}

impl Value {
    /// A structural copy: the copy has the same model as the original.
    pub fn deep_clone(&self) -> (r: Value)
        ensures
            r@ == self@,
        decreases *self,
    {
        match self {
            Value::Bool(b) => Value::Bool(*b),
            Value::Number(n) => Value::Number(*n),
            Value::String(s) => Value::String(s.clone()),
            Value::Procedure(p) => Value::Procedure(Procedure(clone_stmts(&p.0))),
            Value::List(vs) => Value::List(clone_values(vs)),
        }
    }

    /// Wrapping addition of two numbers; anything else is a type mismatch.
    pub fn add(self, rhs: Value) -> (r: Result<Value, RuntimeError>)
        ensures
            res_view(r) == add_values(self@, rhs@),
    {
        match (self, rhs) {
            (Value::Number(x), Value::Number(y)) => Ok(Value::Number(x.wrapping_add(y))),
            (x, y) => Err(type_mismatch2(Builtin::Add, x, y)),
        }
    }

    /// Wrapping subtraction of two numbers; anything else is a type mismatch.
    pub fn sub(self, rhs: Value) -> (r: Result<Value, RuntimeError>)
        ensures
            res_view(r) == sub_values(self@, rhs@),
    {
        match (self, rhs) {
            (Value::Number(x), Value::Number(y)) => Ok(Value::Number(x.wrapping_sub(y))),
            (x, y) => Err(type_mismatch2(Builtin::Sub, x, y)),
        }
    }

    /// Wrapping multiplication of two numbers; anything else is a type
    /// mismatch.
    pub fn mul(self, rhs: Value) -> (r: Result<Value, RuntimeError>)
        ensures
            res_view(r) == mul_values(self@, rhs@),
    {
        match (self, rhs) {
            (Value::Number(x), Value::Number(y)) => Ok(Value::Number(x.wrapping_mul(y))),
            (x, y) => Err(type_mismatch2(Builtin::Mul, x, y)),
        }
    }

    /// Truncated division of two numbers; division by zero or of a
    /// non-number is a type mismatch.
    pub fn div(self, rhs: Value) -> (r: Result<Value, RuntimeError>)
        ensures
            res_view(r) == div_values(self@, rhs@),
    {
        match (self, rhs) {
            (Value::Number(x), Value::Number(y)) => {
                if y == 0 {
                    Err(type_mismatch2(Builtin::Div, Value::Number(x), Value::Number(y)))
                } else {
                    match x.checked_div(y) {
                        Some(q) => Ok(Value::Number(q)),
                        None => Ok(Value::Number(i64::MIN)),
                    }
                }
            },
            (x, y) => Err(type_mismatch2(Builtin::Div, x, y)),
        }
    }

    /// Logical negation of a boolean; anything else is a type mismatch.
    pub fn not(self) -> (r: Result<Value, RuntimeError>)
        ensures
            res_view(r) == not_value(self@),
    {
        match self {
            Value::Bool(b) => Ok(Value::Bool(!b)),
            v => {
                let operands = vec![v];
                proof {
                    lemma_values_view(operands@);
                    assert(values_view(operands@) =~= seq![value_view(operands@[0])]);
                }
                Err(RuntimeError::TypeMismatch {
                    op: Builtin::Neg.to_str().to_owned(),
                    operands,
                })
            },
        }
    }

    /// The value a literal evaluates to.
    pub fn of_literal(l: &Literal) -> (r: Value)
        ensures
            r@ == value_of_lit(l@),
    {
        match l {
            Literal::Bool(b) => Value::Bool(*b),
            Literal::Number(n) => Value::Number(*n),
            Literal::String(s) => Value::String(s.clone()),
        }
    }

    /// The value an expression evaluates to: a literal becomes a scalar, a
    /// quotation becomes a procedure value unevaluated, and a list literal
    /// becomes the list of the values of its elements.
    pub fn of_expression(e: &Expression) -> (r: Value)
        ensures
            r@ == value_of_expr(e@),
        decreases *e,
    {
        match e {
            Expression::Literal(l) => Value::of_literal(l),
            Expression::Procedure(p) => Value::Procedure(Procedure(clone_stmts(&p.0))),
            Expression::List(es) => Value::List(values_of_expressions(es)),
        }
    }
}

/// A one-operand type-mismatch error for the given operation.
pub(crate) fn type_mismatch1(op: Builtin, x: Value) -> (r: RuntimeError)
    ensures
        r@ == (RtErrV::TypeMismatch { op: builtin_token(op), operands: seq![x@] }),
{
    let ghost vx = x@;
    let operands = vec![x];
    proof {
        lemma_values_view(operands@);
        assert(values_view(operands@) =~= seq![vx]);
    }
    RuntimeError::TypeMismatch { op: op.to_str().to_owned(), operands }
}

/// A two-operand type-mismatch error for the given operation.
pub(crate) fn type_mismatch2(op: Builtin, x: Value, y: Value) -> (r: RuntimeError)
    ensures
        r@ == (RtErrV::TypeMismatch { op: builtin_token(op), operands: seq![x@, y@] }),
{
    let ghost vx = x@;
    let ghost vy = y@;
    let operands = vec![x, y];
    proof {
        lemma_values_view(operands@);
        assert(values_view(operands@) =~= seq![vx, vy]);
    }
    RuntimeError::TypeMismatch { op: op.to_str().to_owned(), operands }
}

/// Structural copies of a statement sequence.
pub fn clone_stmts(ss: &Vec<Statement>) -> (r: Vec<Statement>)
    ensures
        stmts_view(r@) == stmts_view(ss@),
        r@.len() == ss@.len(),
    decreases ss@,
{
    let mut out: Vec<Statement> = Vec::new();
    let mut i: usize = 0;
    while i < ss.len()
        invariant
            i <= ss.len(),
            out@.len() == i,
            forall|j: int| 0 <= j < i ==> stmt_view(out@[j]) == stmt_view(ss@[j]),
        decreases ss.len() - i,
    {
        out.push(ss[i].deep_clone());
        i += 1;
    }
    proof {
        lemma_stmts_view(out@);
        lemma_stmts_view(ss@);
        assert(stmts_view(out@) =~= stmts_view(ss@));
    }
    out
}

/// Structural copies of a value sequence.
pub fn clone_values(vs: &Vec<Value>) -> (r: Vec<Value>)
    ensures
        values_view(r@) == values_view(vs@),
        r@.len() == vs@.len(),
    decreases vs@,
{
    let mut out: Vec<Value> = Vec::new();
    let mut i: usize = 0;
    while i < vs.len()
        invariant
            i <= vs.len(),
            out@.len() == i,
            forall|j: int| 0 <= j < i ==> value_view(out@[j]) == value_view(vs@[j]),
        decreases vs.len() - i,
    {
        out.push(vs[i].deep_clone());
        i += 1;
    }
    proof {
        lemma_values_view(out@);
        lemma_values_view(vs@);
        assert(values_view(out@) =~= values_view(vs@));
    }
    out
}

/// Structural copies of an expression sequence.
pub fn clone_exprs(es: &Vec<Expression>) -> (r: Vec<Expression>)
    ensures
        exprs_view(r@) == exprs_view(es@),
        r@.len() == es@.len(),
    decreases es@,
{
    let mut out: Vec<Expression> = Vec::new();
    let mut i: usize = 0;
    while i < es.len()
        invariant
            i <= es.len(),
            out@.len() == i,
            forall|j: int| 0 <= j < i ==> expr_view(out@[j]) == expr_view(es@[j]),
        decreases es.len() - i,
    {
        out.push(es[i].deep_clone());
        i += 1;
    }
    proof {
        lemma_exprs_view(out@);
        lemma_exprs_view(es@);
        assert(exprs_view(out@) =~= exprs_view(es@));
    }
    out
}

/// The values a sequence of expressions evaluates to.
pub fn values_of_expressions(es: &Vec<Expression>) -> (r: Vec<Value>)
    ensures
        values_view(r@) == values_of_exprs(exprs_view(es@)),
    decreases es@,
{
    proof {
        lemma_exprs_view(es@);
        lemma_values_of_exprs(exprs_view(es@));
    }
    let mut out: Vec<Value> = Vec::new();
    let mut i: usize = 0;
    while i < es.len()
        invariant
            i <= es.len(),
            out@.len() == i,
            forall|j: int| 0 <= j < i ==> value_view(out@[j]) == value_of_expr(expr_view(es@[j])),
        decreases es.len() - i,
    {
        out.push(Value::of_expression(&es[i]));
        i += 1;
    }
    proof {
        lemma_values_view(out@);
        lemma_exprs_view(es@);
        lemma_values_of_exprs(exprs_view(es@));
        assert(values_view(out@) =~= values_of_exprs(exprs_view(es@)));
    }
    out
}

impl Statement {
    /// A structural copy: the copy has the same model as the original.
    pub fn deep_clone(&self) -> (r: Statement)
        ensures
            r@ == self@,
        decreases *self,
    {
        match self {
            Statement::Expression(e) => Statement::Expression(e.deep_clone()),
            Statement::Builtin(b) => Statement::Builtin(*b),
            Statement::Value(v) => Statement::Value(v.deep_clone()),
            Statement::Definition { identifier, procedure } => Statement::Definition {
                identifier: identifier.clone(),
                procedure: Procedure(clone_stmts(&procedure.0)),
            },
            Statement::Word(w) => Statement::Word(w.clone()),
        }
    }
}

impl Expression {
    /// A structural copy: the copy has the same model as the original.
    pub fn deep_clone(&self) -> (r: Expression)
        ensures
            r@ == self@,
        decreases *self,
    {
        match self {
            Expression::Literal(l) => Expression::Literal(
                match l {
                    Literal::Bool(b) => Literal::Bool(*b),
                    Literal::Number(n) => Literal::Number(*n),
                    Literal::String(s) => Literal::String(s.clone()),
                },
            ),
            Expression::Procedure(p) => Expression::Procedure(Procedure(clone_stmts(&p.0))),
            Expression::List(es) => Expression::List(clone_exprs(es)),
        }
    }
}

impl Procedure {
    /// A structural copy: the copy has the same model as the original.
    pub fn deep_clone(&self) -> (r: Procedure)
        ensures
            r@ == self@,
    {
        Procedure(clone_stmts(&self.0))
    }
}

/// Rank of a builtin, in declaration order.
fn rank_of_builtin(b: &Builtin) -> (r: u8)
    ensures
        r as int == builtin_rank(*b),
{
    match b {
        Builtin::Add => 0,
        Builtin::Sub => 1,
        Builtin::Mul => 2,
        Builtin::Div => 3,
        Builtin::Eq => 4,
        Builtin::Neg => 5,
        Builtin::Lt => 6,
        Builtin::Le => 7,
        Builtin::Gt => 8,
        Builtin::Ge => 9,
        Builtin::Dup => 10,
        Builtin::Dup2 => 11,
        Builtin::Swap => 12,
        Builtin::Drop => 13,
        Builtin::Drop2 => 14,
        Builtin::Drop3 => 15,
        Builtin::Over => 16,
        Builtin::Dupd => 17,
        Builtin::Rotl => 18,
        Builtin::Rotr => 19,
        Builtin::Keep => 20,
        Builtin::Eval => 21,
        Builtin::Println => 22,
        Builtin::If => 23,
        Builtin::Nth => 24,
    }
}

fn rank_of_value(v: &Value) -> (r: u8)
    ensures
        r as int == value_rank(v@),
{
    match v {
        Value::Bool(_) => 0,
        Value::Number(_) => 1,
        Value::String(_) => 2,
        Value::Procedure(_) => 3,
        Value::List(_) => 4,
    }
}

fn rank_of_stmt(s: &Statement) -> (r: u8)
    ensures
        r as int == stmt_rank(s@),
{
    match s {
        Statement::Expression(_) => 0,
        Statement::Builtin(_) => 1,
        Statement::Value(_) => 2,
        Statement::Definition { .. } => 3,
        Statement::Word(_) => 4,
    }
}

fn rank_of_expr(e: &Expression) -> (r: u8)
    ensures
        r as int == expr_rank(e@),
{
    match e {
        Expression::Literal(_) => 0,
        Expression::Procedure(_) => 1,
        Expression::List(_) => 2,
    }
}

fn rank_of_lit(l: &Literal) -> (r: u8)
    ensures
        r as int == lit_rank(l@),
{
    match l {
        Literal::Bool(_) => 0,
        Literal::Number(_) => 1,
        Literal::String(_) => 2,
    }
}

/// Three-way structural comparison of two values.
pub fn value_cmp(a: &Value, b: &Value) -> (r: Order)
    ensures
        r == cmp_value(a@, b@),
    decreases *a,
{
    let ra = rank_of_value(a);
    let rb = rank_of_value(b);
    if ra != rb {
        return if ra < rb {
            Order::Less
        } else {
            Order::Greater
        };
    }
    match (a, b) {
        (Value::Bool(x), Value::Bool(y)) => {
            if *x == *y {
                Order::Equal
            } else if !*x {
                Order::Less
            } else {
                Order::Greater
            }
        },
        (Value::Number(x), Value::Number(y)) => {
            if *x < *y {
                Order::Less
            } else if *x == *y {
                Order::Equal
            } else {
                Order::Greater
            }
        },
        (Value::String(x), Value::String(y)) => str_cmp(x.as_str(), y.as_str()),
        (Value::Procedure(x), Value::Procedure(y)) => stmts_cmp(&x.0, &y.0),
        (Value::List(xs), Value::List(ys)) => values_cmp(xs, ys),
        _ => {
            proof {
                assert(false);
            }
            Order::Equal
        },
    }
}

/// Lexicographic comparison of two value sequences.
pub fn values_cmp(a: &Vec<Value>, b: &Vec<Value>) -> (r: Order)
    ensures
        r == cmp_values(values_view(a@), values_view(b@)),
    decreases a@,
{
    let ghost va = values_view(a@);
    let ghost vb = values_view(b@);
    proof {
        lemma_values_view(a@);
        lemma_values_view(b@);
        assert(va.skip(0) =~= va);
        assert(vb.skip(0) =~= vb);
    }
    let mut i: usize = 0;
    loop
        invariant
            i <= a@.len(),
            i <= b@.len(),
            va == values_view(a@),
            vb == values_view(b@),
            va.len() == a@.len(),
            vb.len() == b@.len(),
            forall|j: int| 0 <= j < va.len() ==> va[j] == value_view(a@[j]),
            forall|j: int| 0 <= j < vb.len() ==> vb[j] == value_view(b@[j]),
            cmp_values(va, vb) == cmp_values(va.skip(i as int), vb.skip(i as int)),
        decreases a@.len() - i,
    {
        if i == a.len() && i == b.len() {
            return Order::Equal;
        }
        if i == a.len() {
            return Order::Less;
        }
        if i == b.len() {
            return Order::Greater;
        }
        proof {
            assert(va.skip(i as int)[0] == va[i as int]);
            assert(vb.skip(i as int)[0] == vb[i as int]);
        }
        match value_cmp(&a[i], &b[i]) {
            Order::Equal => {
                proof {
                    assert(va.skip(i as int).drop_first() =~= va.skip(i + 1 as int));
                    assert(vb.skip(i as int).drop_first() =~= vb.skip(i + 1 as int));
                }
                i += 1;
            },
            o => {
                return o;
            },
        }
    }
}

/// Three-way structural comparison of two statements.
pub fn stmt_cmp(a: &Statement, b: &Statement) -> (r: Order)
    ensures
        r == cmp_stmt(a@, b@),
    decreases *a,
{
    let ra = rank_of_stmt(a);
    let rb = rank_of_stmt(b);
    if ra != rb {
        return if ra < rb {
            Order::Less
        } else {
            Order::Greater
        };
    }
    match (a, b) {
        (Statement::Expression(x), Statement::Expression(y)) => expr_cmp(x, y),
        (Statement::Builtin(x), Statement::Builtin(y)) => {
            let rx = rank_of_builtin(x);
            let ry = rank_of_builtin(y);
            if rx < ry {
                Order::Less
            } else if rx == ry {
                Order::Equal
            } else {
                Order::Greater
            }
        },
        (Statement::Value(x), Statement::Value(y)) => value_cmp(x, y),
        (
            Statement::Definition { identifier: ia, procedure: pa },
            Statement::Definition { identifier: ib, procedure: pb },
        ) => {
            match str_cmp(ia.as_str(), ib.as_str()) {
                Order::Equal => stmts_cmp(&pa.0, &pb.0),
                o => o,
            }
        },
        (Statement::Word(x), Statement::Word(y)) => str_cmp(x.as_str(), y.as_str()),
        _ => {
            proof {
                assert(false);
            }
            Order::Equal
        },
    }
}

/// Lexicographic comparison of two statement sequences.
pub fn stmts_cmp(a: &Vec<Statement>, b: &Vec<Statement>) -> (r: Order)
    ensures
        r == cmp_stmts(stmts_view(a@), stmts_view(b@)),
    decreases a@,
{
    let ghost va = stmts_view(a@);
    let ghost vb = stmts_view(b@);
    proof {
        lemma_stmts_view(a@);
        lemma_stmts_view(b@);
        assert(va.skip(0) =~= va);
        assert(vb.skip(0) =~= vb);
    }
    let mut i: usize = 0;
    loop
        invariant
            i <= a@.len(),
            i <= b@.len(),
            va == stmts_view(a@),
            vb == stmts_view(b@),
            va.len() == a@.len(),
            vb.len() == b@.len(),
            forall|j: int| 0 <= j < va.len() ==> va[j] == stmt_view(a@[j]),
            forall|j: int| 0 <= j < vb.len() ==> vb[j] == stmt_view(b@[j]),
            cmp_stmts(va, vb) == cmp_stmts(va.skip(i as int), vb.skip(i as int)),
        decreases a@.len() - i,
    {
        if i == a.len() && i == b.len() {
            return Order::Equal;
        }
        if i == a.len() {
            return Order::Less;
        }
        if i == b.len() {
            return Order::Greater;
        }
        proof {
            assert(va.skip(i as int)[0] == va[i as int]);
            assert(vb.skip(i as int)[0] == vb[i as int]);
        }
        match stmt_cmp(&a[i], &b[i]) {
            Order::Equal => {
                proof {
                    assert(va.skip(i as int).drop_first() =~= va.skip(i + 1 as int));
                    assert(vb.skip(i as int).drop_first() =~= vb.skip(i + 1 as int));
                }
                i += 1;
            },
            o => {
                return o;
            },
        }
    }
}

/// Three-way structural comparison of two expressions.
pub fn expr_cmp(a: &Expression, b: &Expression) -> (r: Order)
    ensures
        r == cmp_expr(a@, b@),
    decreases *a,
{
    let ra = rank_of_expr(a);
    let rb = rank_of_expr(b);
    if ra != rb {
        return if ra < rb {
            Order::Less
        } else {
            Order::Greater
        };
    }
    match (a, b) {
        (Expression::Literal(x), Expression::Literal(y)) => lit_cmp(x, y),
        (Expression::Procedure(x), Expression::Procedure(y)) => stmts_cmp(&x.0, &y.0),
        (Expression::List(xs), Expression::List(ys)) => exprs_cmp(xs, ys),
        _ => {
            proof {
                assert(false);
            }
            Order::Equal
        },
    }
}

/// Lexicographic comparison of two expression sequences.
pub fn exprs_cmp(a: &Vec<Expression>, b: &Vec<Expression>) -> (r: Order)
    ensures
        r == cmp_exprs(exprs_view(a@), exprs_view(b@)),
    decreases a@,
{
    let ghost va = exprs_view(a@);
    let ghost vb = exprs_view(b@);
    proof {
        lemma_exprs_view(a@);
        lemma_exprs_view(b@);
        assert(va.skip(0) =~= va);
        assert(vb.skip(0) =~= vb);
    }
    let mut i: usize = 0;
    loop
        invariant
            i <= a@.len(),
            i <= b@.len(),
            va == exprs_view(a@),
            vb == exprs_view(b@),
            va.len() == a@.len(),
            vb.len() == b@.len(),
            forall|j: int| 0 <= j < va.len() ==> va[j] == expr_view(a@[j]),
            forall|j: int| 0 <= j < vb.len() ==> vb[j] == expr_view(b@[j]),
            cmp_exprs(va, vb) == cmp_exprs(va.skip(i as int), vb.skip(i as int)),
        decreases a@.len() - i,
    {
        if i == a.len() && i == b.len() {
            return Order::Equal;
        }
        if i == a.len() {
            return Order::Less;
        }
        if i == b.len() {
            return Order::Greater;
        }
        proof {
            assert(va.skip(i as int)[0] == va[i as int]);
            assert(vb.skip(i as int)[0] == vb[i as int]);
        }
        match expr_cmp(&a[i], &b[i]) {
            Order::Equal => {
                proof {
                    assert(va.skip(i as int).drop_first() =~= va.skip(i + 1 as int));
                    assert(vb.skip(i as int).drop_first() =~= vb.skip(i + 1 as int));
                }
                i += 1;
            },
            o => {
                return o;
            },
        }
    }
}

/// Three-way structural comparison of two literals.
pub fn lit_cmp(a: &Literal, b: &Literal) -> (r: Order)
    ensures
        r == cmp_lit(a@, b@),
{
    let ra = rank_of_lit(a);
    let rb = rank_of_lit(b);
    if ra != rb {
        return if ra < rb {
            Order::Less
        } else {
            Order::Greater
        };
    }
    match (a, b) {
        (Literal::Bool(x), Literal::Bool(y)) => {
            if *x == *y {
                Order::Equal
            } else if !*x {
                Order::Less
            } else {
                Order::Greater
            }
        },
        (Literal::Number(x), Literal::Number(y)) => {
            if *x < *y {
                Order::Less
            } else if *x == *y {
                Order::Equal
            } else {
                Order::Greater
            }
        },
        (Literal::String(x), Literal::String(y)) => str_cmp(x.as_str(), y.as_str()),
        _ => {
            proof {
                assert(false);
            }
            Order::Equal
        },
    }
}

} // verus!
