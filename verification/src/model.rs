//! The mathematical model of the syntax tree and of runtime values: ghost
//! counterparts of the executable types, with strings as character sequences
//! and numbers as unbounded integers, together with the view functions that
//! relate the two.
use vstd::prelude::*;
use crate::ast::{Builtin, Expression, Literal, Procedure, Program, Statement};
use crate::value::Value;

verus! {

/// Model of a literal token.
pub ghost enum LiteralV {
    Bool(bool),
    Number(int),
    Text(Seq<char>),
}

/// Model of an expression.
pub ghost enum ExpressionV {
    Literal(LiteralV),
    Procedure(Seq<StatementV>),
    List(Seq<ExpressionV>),
}

/// Model of a statement.
pub ghost enum StatementV {
    Expression(ExpressionV),
    Builtin(Builtin),
    Value(ValueV),
    Definition { identifier: Seq<char>, procedure: Seq<StatementV> },
    Word(Seq<char>),
}

/// Model of a runtime value.
pub ghost enum ValueV {
    Bool(bool),
    Number(int),
    Text(Seq<char>),
    Procedure(Seq<StatementV>),
    List(Seq<ValueV>),
}

pub open spec fn lit_view(l: Literal) -> LiteralV {
    match l {
        Literal::Bool(b) => LiteralV::Bool(b),
        Literal::Number(n) => LiteralV::Number(n as int),
        Literal::String(s) => LiteralV::Text(s@),
    }
}

pub open spec fn expr_view(e: Expression) -> ExpressionV
    decreases e, 0nat,
{
    match e {
        Expression::Literal(l) => ExpressionV::Literal(lit_view(l)),
        Expression::Procedure(p) => ExpressionV::Procedure(stmts_view(p.0@)),
        Expression::List(es) => ExpressionV::List(exprs_view(es@)),
    }
}

pub open spec fn exprs_view(es: Seq<Expression>) -> Seq<ExpressionV>
    decreases es, 1nat,
{
    if es.len() == 0 {
        Seq::empty()
    } else {
        seq![expr_view(es[0])] + exprs_view(es.drop_first())
    }
}

pub open spec fn stmt_view(s: Statement) -> StatementV
    decreases s, 0nat,
{
    match s {
        Statement::Expression(e) => StatementV::Expression(expr_view(e)),
        Statement::Builtin(b) => StatementV::Builtin(b),
        Statement::Value(v) => StatementV::Value(value_view(v)),
        Statement::Definition { identifier, procedure } => StatementV::Definition {
            identifier: identifier@,
            procedure: stmts_view(procedure.0@),
        },
        Statement::Word(w) => StatementV::Word(w@),
    }
}

pub open spec fn stmts_view(ss: Seq<Statement>) -> Seq<StatementV>
    decreases ss, 1nat,
{
    if ss.len() == 0 {
        Seq::empty()
    } else {
        seq![stmt_view(ss[0])] + stmts_view(ss.drop_first())
    }
}

pub open spec fn value_view(v: Value) -> ValueV
    decreases v, 0nat,
{
    match v {
        Value::Bool(b) => ValueV::Bool(b),
        Value::Number(n) => ValueV::Number(n as int),
        Value::String(s) => ValueV::Text(s@),
        Value::Procedure(p) => ValueV::Procedure(stmts_view(p.0@)),
        Value::List(vs) => ValueV::List(values_view(vs@)),
    }
}

pub open spec fn values_view(vs: Seq<Value>) -> Seq<ValueV>
    decreases vs, 1nat,
{
    if vs.len() == 0 {
        Seq::empty()
    } else {
        seq![value_view(vs[0])] + values_view(vs.drop_first())
    }
}

impl View for Literal {
    type V = LiteralV;

    open spec fn view(&self) -> LiteralV {
        lit_view(*self)
    }
}

impl View for Expression {
    type V = ExpressionV;

    open spec fn view(&self) -> ExpressionV {
        expr_view(*self)
    }
}

impl View for Statement {
    type V = StatementV;

    open spec fn view(&self) -> StatementV {
        stmt_view(*self)
    }
}

impl View for Procedure {
    type V = Seq<StatementV>;

    open spec fn view(&self) -> Seq<StatementV> {
        stmts_view(self.0@)
    }
}

impl View for Program {
    type V = Seq<StatementV>;

    open spec fn view(&self) -> Seq<StatementV> {
        stmts_view(self.statements@)
    }
}

impl View for Value {
    type V = ValueV;

    open spec fn view(&self) -> ValueV {
        value_view(*self)
    }
}

pub broadcast proof fn lemma_stmts_view(ss: Seq<Statement>)
    ensures
        (#[trigger] stmts_view(ss)).len() == ss.len(),
        forall|i: int| 0 <= i < ss.len() ==> stmts_view(ss)[i] == stmt_view(ss[i]),
    decreases ss,
{
    if ss.len() > 0 {
        lemma_stmts_view(ss.drop_first());
    }
}

pub broadcast proof fn lemma_exprs_view(es: Seq<Expression>)
    ensures
        (#[trigger] exprs_view(es)).len() == es.len(),
        forall|i: int| 0 <= i < es.len() ==> exprs_view(es)[i] == expr_view(es[i]),
    decreases es,
{
    if es.len() > 0 {
        lemma_exprs_view(es.drop_first());
    }
}

pub broadcast proof fn lemma_values_view(vs: Seq<Value>)
    ensures
        (#[trigger] values_view(vs)).len() == vs.len(),
        forall|i: int| 0 <= i < vs.len() ==> values_view(vs)[i] == value_view(vs[i]),
    decreases vs,
{
    if vs.len() > 0 {
        lemma_values_view(vs.drop_first());
    }
}

/// Appending statement sequences appends their views.
pub proof fn lemma_stmts_view_concat(a: Seq<Statement>, b: Seq<Statement>)
    ensures
        stmts_view(a + b) == stmts_view(a) + stmts_view(b),
    decreases a,
{
    lemma_stmts_view(a);
    lemma_stmts_view(b);
    lemma_stmts_view(a + b);
    assert(stmts_view(a + b) =~= stmts_view(a) + stmts_view(b));
}

/// The value a literal evaluates to.
pub open spec fn value_of_lit(l: LiteralV) -> ValueV {
    match l {
        LiteralV::Bool(b) => ValueV::Bool(b),
        LiteralV::Number(n) => ValueV::Number(n),
        LiteralV::Text(t) => ValueV::Text(t),
    }
}

/// The value an expression evaluates to: literals become scalar values,
/// quotations become procedure values unevaluated, and list literals become
/// lists of the values of their elements.
pub open spec fn value_of_expr(e: ExpressionV) -> ValueV
    decreases e, 0nat,
{
    match e {
        ExpressionV::Literal(l) => value_of_lit(l),
        ExpressionV::Procedure(ss) => ValueV::Procedure(ss),
        ExpressionV::List(es) => ValueV::List(values_of_exprs(es)),
    }
}

pub open spec fn values_of_exprs(es: Seq<ExpressionV>) -> Seq<ValueV>
    decreases es, 1nat,
{
    if es.len() == 0 {
        Seq::empty()
    } else {
        seq![value_of_expr(es[0])] + values_of_exprs(es.drop_first())
    }
}

pub broadcast proof fn lemma_values_of_exprs(es: Seq<ExpressionV>)
    ensures
        (#[trigger] values_of_exprs(es)).len() == es.len(),
        forall|i: int| 0 <= i < es.len() ==> values_of_exprs(es)[i] == value_of_expr(es[i]),
    decreases es,
{
    if es.len() > 0 {
        lemma_values_of_exprs(es.drop_first());
    }
}

/// Appending expression sequences appends their views.
pub proof fn lemma_exprs_view_concat(a: Seq<Expression>, b: Seq<Expression>)
    ensures
        exprs_view(a + b) == exprs_view(a) + exprs_view(b),
{
    lemma_exprs_view(a);
    lemma_exprs_view(b);
    lemma_exprs_view(a + b);
    assert(exprs_view(a + b) =~= exprs_view(a) + exprs_view(b));
}

/// The view of a one-statement sequence.
pub proof fn lemma_stmts_view_one(st: Statement)
    ensures
        stmts_view(seq![st]) == seq![stmt_view(st)],
{
    assert(seq![st].drop_first() =~= Seq::<Statement>::empty());
    assert(stmts_view(Seq::<Statement>::empty()) =~= Seq::<StatementV>::empty());
    assert(stmts_view(seq![st]) =~= seq![stmt_view(st)]);
}

/// The view of a one-expression sequence.
pub proof fn lemma_exprs_view_one(e: Expression)
    ensures
        exprs_view(seq![e]) == seq![expr_view(e)],
{
    assert(seq![e].drop_first() =~= Seq::<Expression>::empty());
    assert(exprs_view(Seq::<Expression>::empty()) =~= Seq::<ExpressionV>::empty());
    assert(exprs_view(seq![e]) =~= seq![expr_view(e)]);
}

} // verus!
