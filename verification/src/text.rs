//! Rendering of values, statements and errors to text, and small verified
//! text utilities. The display form is the same surface syntax the parser
//! reads back.
use vstd::prelude::*;
use vstd::string::StrSliceExecFns;
use crate::ast::{builtin_token, Builtin, Expression, Literal, Procedure, Statement};
use crate::error::{RtErrV, RuntimeError};
use crate::value::Value;
use crate::model::{
    lemma_stmts_view, lemma_values_view, lit_view, stmt_view, stmts_view, value_view,
    values_view, ExpressionV, LiteralV, StatementV, ValueV,
};

verus! {

/// The decimal digit character for one digit value.
pub open spec fn digit_char(d: int) -> char {
    if d == 0 {
        '0'
    } else if d == 1 {
        '1'
    } else if d == 2 {
        '2'
    } else if d == 3 {
        '3'
    } else if d == 4 {
        '4'
    } else if d == 5 {
        '5'
    } else if d == 6 {
        '6'
    } else if d == 7 {
        '7'
    } else if d == 8 {
        '8'
    } else {
        '9'
    }
}

/// The decimal digits of a natural number, most significant first, without
/// leading zeros (zero itself is the single digit `0`).
pub open spec fn dec_digits(n: nat) -> Seq<char>
    decreases n,
{
    if n < 10 {
        seq![digit_char(n as int)]
    } else {
        dec_digits(n / 10) + seq![digit_char((n % 10) as int)]
    }
}

/// The decimal rendering of an integer: a minus sign for negatives, then the
/// digits of its magnitude.
pub open spec fn int_text(n: int) -> Seq<char> {
    if n < 0 {
        seq!['-'] + dec_digits((-n) as nat)
    } else {
        dec_digits(n as nat)
    }
}

/// The rendering of a boolean.
pub open spec fn bool_text(b: bool) -> Seq<char> {
    if b {
        seq!['t', 'r', 'u', 'e']
    } else {
        seq!['f', 'a', 'l', 's', 'e']
    }
}

/// The rendering of a text value: its characters between double quotes.
pub open spec fn quoted_text(t: Seq<char>) -> Seq<char> {
    seq!['"'] + t + seq!['"']
}

/// The rendering of a literal.
pub open spec fn lit_text(l: LiteralV) -> Seq<char> {
    match l {
        LiteralV::Bool(b) => bool_text(b),
        LiteralV::Number(n) => int_text(n),
        LiteralV::Text(t) => quoted_text(t),
    }
}

/// The rendering of a value.
pub open spec fn value_text(v: ValueV) -> Seq<char>
    decreases v, 2nat,
{
    match v {
        ValueV::Bool(b) => bool_text(b),
        ValueV::Number(n) => int_text(n),
        ValueV::Text(t) => quoted_text(t),
        ValueV::Procedure(ss) => block_text(ss),
        ValueV::List(vs) => seq!['['] + values_items(vs) + (if vs.len() > 0 {
            seq![' ']
        } else {
            Seq::empty()
        }) + seq![']'],
    }
}

/// The inner rendering of a list of values: one space before each element.
pub open spec fn values_items(vs: Seq<ValueV>) -> Seq<char>
    decreases vs, 0nat,
{
    if vs.len() == 0 {
        Seq::empty()
    } else {
        seq![' '] + value_text(vs[0]) + values_items(vs.drop_first())
    }
}

/// The rendering of a procedure body between braces.
pub open spec fn block_text(ss: Seq<StatementV>) -> Seq<char>
    decreases ss, 1nat,
{
    seq!['{'] + stmts_items(ss) + (if ss.len() > 0 {
        seq![' ']
    } else {
        Seq::empty()
    }) + seq!['}']
}

/// The inner rendering of a statement sequence: one space before each
/// statement.
pub open spec fn stmts_items(ss: Seq<StatementV>) -> Seq<char>
    decreases ss, 0nat,
{
    if ss.len() == 0 {
        Seq::empty()
    } else {
        seq![' '] + stmt_text(ss[0]) + stmts_items(ss.drop_first())
    }
}

/// The rendering of a statement.
pub open spec fn stmt_text(s: StatementV) -> Seq<char>
    decreases s, 2nat,
{
    match s {
        StatementV::Expression(e) => expr_text(e),
        StatementV::Builtin(b) => builtin_token(b),
        StatementV::Value(v) => value_text(v),
        StatementV::Definition { identifier, procedure } => seq!['d', 'e', 'f', ' ']
            + identifier + seq![' '] + block_text(procedure),
        StatementV::Word(w) => w,
    }
}

/// The rendering of an expression.
pub open spec fn expr_text(e: ExpressionV) -> Seq<char>
    decreases e, 2nat,
{
    match e {
        ExpressionV::Literal(l) => lit_text(l),
        ExpressionV::Procedure(ss) => block_text(ss),
        ExpressionV::List(es) => seq!['['] + exprs_items(es) + (if es.len() > 0 {
            seq![' ']
        } else {
            Seq::empty()
        }) + seq![']'],
    }
}

/// The inner rendering of a list of expressions.
pub open spec fn exprs_items(es: Seq<ExpressionV>) -> Seq<char>
    decreases es, 0nat,
{
    if es.len() == 0 {
        Seq::empty()
    } else {
        seq![' '] + expr_text(es[0]) + exprs_items(es.drop_first())
    }
}

/// The message a runtime error renders to.
pub open spec fn err_text(e: RtErrV) -> Seq<char> {
    match e {
        RtErrV::Arity { op, expected, actual } => seq!['O', 'p', 'e', 'r', 'a', 't', 'i', 'o', 'n', ' ', '`']
            + op + seq!['`', ' ', 'e', 'x', 'p', 'e', 'c', 't', 'e', 'd', ' ']
            + dec_digits(expected)
            + seq![' ', 'a', 'r', 'g', 'u', 'm', 'e', 'n', 't', '(', 's', ')', ',', ' ', 'g', 'o', 't', ' ']
            + dec_digits(actual),
        RtErrV::TypeMismatch { op, operands } => seq!['C', 'a', 'n', '\'', 't', ' ', 'a', 'p', 'p', 'l', 'y', ' ', '`']
            + op + seq!['`', ' ', 't', 'o'] + values_items(operands),
        RtErrV::UnresolvedIdentifier { identifier } => seq!['C', 'o', 'u', 'l', 'd', 'n', '\'', 't', ' ', 'r', 'e', 's', 'o', 'l', 'v', 'e', ' ', 'i', 'd', 'e', 'n', 't', 'i', 'f', 'i', 'e', 'r', ' ', '"']
            + identifier + seq!['"'],
        RtErrV::IndexOutOfRange { index, length } => seq!['I', 'n', 'd', 'e', 'x', ' ']
            + int_text(index)
            + seq![' ', 'o', 'u', 't', ' ', 'o', 'f', ' ', 'b', 'o', 'u', 'n', 'd', 's', ' ', 'f', 'o', 'r', ' ', 'l', 'e', 'n', 'g', 't', 'h', ' ']
            + dec_digits(length),
        RtErrV::StepLimit => seq!['S', 't', 'e', 'p', ' ', 'l', 'i', 'm', 'i', 't', ' ', 'e', 'x', 'c', 'e', 'e', 'd', 'e', 'd'],
    }
}

/// Relies on `Iterator::collect` for `String`: collecting characters yields
/// the string holding exactly those characters in order.
#[verifier::external_body]
pub fn chars_to_string(v: &Vec<char>) -> (r: String)
    ensures
        r@ == v@,
{
    v.iter().collect()
}

/// Whether two string slices hold the same characters.
pub fn str_eq(a: &str, b: &str) -> (r: bool)
    ensures
        r == (a@ == b@),
{
    let alen = a.unicode_len();
    let blen = b.unicode_len();
    if alen != blen {
        return false;
    }
    let mut i: usize = 0;
    while i < alen
        invariant
            i <= alen,
            alen == a@.len(),
            alen == b@.len(),
            forall|j: int| 0 <= j < i ==> a@[j] == b@[j],
        decreases alen - i,
    {
        if a.get_char(i) != b.get_char(i) {
            return false;
        }
        i += 1;
    }
    proof {
        assert(a@ =~= b@);
    }
    true
}

/// The character of one decimal digit.
fn digit_to_char(d: u8) -> (c: char)
    requires
        d < 10,
    ensures
        c == digit_char(d as int),
{
    match d {
        0 => '0',
        1 => '1',
        2 => '2',
        3 => '3',
        4 => '4',
        5 => '5',
        6 => '6',
        7 => '7',
        8 => '8',
        _ => '9',
    }
}

/// Appends the decimal digits of `n`.
fn push_u64_digits(out: &mut Vec<char>, n: u64)
    ensures
        final(out)@ == old(out)@ + dec_digits(n as nat),
    decreases n,
{
    if n < 10 {
        out.push(digit_to_char(n as u8));
        proof {
            assert(final(out)@ =~= old(out)@ + dec_digits(n as nat));
        }
    } else {
        push_u64_digits(out, n / 10);
        out.push(digit_to_char((n % 10) as u8));
        proof {
            assert(final(out)@ =~= old(out)@ + dec_digits(n as nat));
        }
    }
}

/// Appends the decimal rendering of an integer.
fn push_i64(out: &mut Vec<char>, n: i64)
    ensures
        final(out)@ == old(out)@ + int_text(n as int),
{
    if n < 0 {
        out.push('-');
        let m: u64 = if n == i64::MIN {
            9223372036854775808u64
        } else {
            (-n) as u64
        };
        push_u64_digits(out, m);
        proof {
            assert(final(out)@ =~= old(out)@ + int_text(n as int));
        }
    } else {
        push_u64_digits(out, n as u64);
    }
}

/// Appends every character of a string slice.
fn push_str_chars(out: &mut Vec<char>, s: &str)
    ensures
        final(out)@ == old(out)@ + s@,
{
    let len = s.unicode_len();
    let mut i: usize = 0;
    while i < len
        invariant
            i <= len,
            len == s@.len(),
            out@ == old(out)@ + s@.subrange(0, i as int),
        decreases len - i,
    {
        out.push(s.get_char(i));
        proof {
            assert(old(out)@ + s@.subrange(0, i + 1 as int) =~= (old(out)@ + s@.subrange(
                0,
                i as int,
            )).push(s@[i as int]));
        }
        i += 1;
    }
    proof {
        assert(s@.subrange(0, s@.len() as int) =~= s@);
    }
}

/// Appends the rendering of a value.
fn push_value_text(out: &mut Vec<char>, v: &Value)
    ensures
        final(out)@ == old(out)@ + value_text(v@),
    decreases *v, 2nat,
{
    match v {
        Value::Bool(b) => {
            if *b {
                out.push('t');
                out.push('r');
                out.push('u');
                out.push('e');
            } else {
                out.push('f');
                out.push('a');
                out.push('l');
                out.push('s');
                out.push('e');
            }
            proof {
                assert(final(out)@ =~= old(out)@ + bool_text(*b));
            }
        },
        Value::Number(n) => {
            push_i64(out, *n);
        },
        Value::String(t) => {
            out.push('"');
            push_str_chars(out, t.as_str());
            out.push('"');
            proof {
                assert(final(out)@ =~= old(out)@ + quoted_text(t@));
            }
        },
        Value::Procedure(p) => {
            push_block_text(out, &p.0);
        },
        Value::List(vs) => {
            out.push('[');
            push_values_items(out, vs);
            if vs.len() > 0 {
                out.push(' ');
            }
            out.push(']');
            proof {
                assert(final(out)@ =~= old(out)@ + value_text(v@));
            }
        },
    }
}

/// Appends the inner rendering of a list of values.
fn push_values_items(out: &mut Vec<char>, vs: &Vec<Value>)
    ensures
        final(out)@ == old(out)@ + values_items(values_view(vs@)),
    decreases vs@, 0nat,
{
    let ghost vv = values_view(vs@);
    proof {
        lemma_values_view(vs@);
        assert(vv.skip(0) =~= vv);
    }
    let mut i: usize = 0;
    while i < vs.len()
        invariant
            i <= vs.len(),
            vv == values_view(vs@),
            vv.len() == vs@.len(),
            forall|j: int| 0 <= j < vv.len() ==> vv[j] == value_view(vs@[j]),
            out@ + values_items(vv.skip(i as int)) == old(out)@ + values_items(vv),
        decreases vs@.len() - i,
    {
        let ghost pre = out@;
        out.push(' ');
        push_value_text(out, &vs[i]);
        proof {
            assert(vv.skip(i as int).drop_first() =~= vv.skip(i + 1 as int));
            assert(vv.skip(i as int)[0] == vv[i as int]);
            assert(out@ =~= pre + seq![' '] + value_text(vv[i as int]));
            assert(pre + values_items(vv.skip(i as int)) =~= pre + seq![' '] + value_text(
                vv[i as int],
            ) + values_items(vv.skip(i + 1 as int)));
            assert(out@ + values_items(vv.skip(i + 1 as int)) =~= pre + values_items(
                vv.skip(i as int),
            ));
        }
        i += 1;
    }
    proof {
        assert(values_items(vv.skip(vs@.len() as int)) =~= Seq::<char>::empty());
        assert(out@ =~= out@ + values_items(vv.skip(vs@.len() as int)));
    }
}

/// Appends the rendering of a procedure body between braces.
fn push_block_text(out: &mut Vec<char>, ss: &Vec<Statement>)
    ensures
        final(out)@ == old(out)@ + block_text(stmts_view(ss@)),
    decreases ss@, 1nat,
{
    out.push('{');
    push_stmts_items(out, ss);
    if ss.len() > 0 {
        proof {
            lemma_stmts_view(ss@);
        }
        out.push(' ');
    }
    out.push('}');
    proof {
        lemma_stmts_view(ss@);
        assert(final(out)@ =~= old(out)@ + block_text(stmts_view(ss@)));
    }
}

/// Appends the inner rendering of a statement sequence.
fn push_stmts_items(out: &mut Vec<char>, ss: &Vec<Statement>)
    ensures
        final(out)@ == old(out)@ + stmts_items(stmts_view(ss@)),
    decreases ss@, 0nat,
{
    let ghost sv = stmts_view(ss@);
    proof {
        lemma_stmts_view(ss@);
        assert(sv.skip(0) =~= sv);
    }
    let mut i: usize = 0;
    while i < ss.len()
        invariant
            i <= ss.len(),
            sv == stmts_view(ss@),
            sv.len() == ss@.len(),
            forall|j: int| 0 <= j < sv.len() ==> sv[j] == stmt_view(ss@[j]),
            out@ + stmts_items(sv.skip(i as int)) == old(out)@ + stmts_items(sv),
        decreases ss@.len() - i,
    {
        let ghost pre = out@;
        out.push(' ');
        push_stmt_text(out, &ss[i]);
        proof {
            assert(sv.skip(i as int).drop_first() =~= sv.skip(i + 1 as int));
            assert(sv.skip(i as int)[0] == sv[i as int]);
            assert(out@ =~= pre + seq![' '] + stmt_text(sv[i as int]));
            assert(pre + stmts_items(sv.skip(i as int)) =~= pre + seq![' '] + stmt_text(
                sv[i as int],
            ) + stmts_items(sv.skip(i + 1 as int)));
            assert(out@ + stmts_items(sv.skip(i + 1 as int)) =~= pre + stmts_items(
                sv.skip(i as int),
            ));
        }
        i += 1;
    }
    proof {
        assert(stmts_items(sv.skip(ss@.len() as int)) =~= Seq::<char>::empty());
        assert(out@ =~= out@ + stmts_items(sv.skip(ss@.len() as int)));
    }
}

/// Appends the rendering of a statement.
fn push_stmt_text(out: &mut Vec<char>, s: &Statement)
    ensures
        final(out)@ == old(out)@ + stmt_text(s@),
    decreases *s, 2nat,
{
    match s {
        Statement::Expression(e) => {
            push_expr_text(out, e);
        },
        Statement::Builtin(b) => {
            push_str_chars(out, b.to_str());
        },
        Statement::Value(v) => {
            push_value_text(out, v);
        },
        Statement::Definition { identifier, procedure } => {
            out.push('d');
            out.push('e');
            out.push('f');
            out.push(' ');
            push_str_chars(out, identifier.as_str());
            out.push(' ');
            push_block_text(out, &procedure.0);
            proof {
                assert(final(out)@ =~= old(out)@ + stmt_text(s@));
            }
        },
        Statement::Word(w) => {
            push_str_chars(out, w.as_str());
        },
    }
}

/// Appends the rendering of an expression.
fn push_expr_text(out: &mut Vec<char>, e: &Expression)
    ensures
        final(out)@ == old(out)@ + expr_text(e@),
    decreases *e, 2nat,
{
    match e {
        Expression::Literal(l) => {
            match l {
                Literal::Bool(b) => {
                    if *b {
                        out.push('t');
                        out.push('r');
                        out.push('u');
                        out.push('e');
                    } else {
                        out.push('f');
                        out.push('a');
                        out.push('l');
                        out.push('s');
                        out.push('e');
                    }
                    proof {
                        assert(final(out)@ =~= old(out)@ + bool_text(*b));
                    }
                },
                Literal::Number(n) => {
                    push_i64(out, *n);
                },
                Literal::String(t) => {
                    out.push('"');
                    push_str_chars(out, t.as_str());
                    out.push('"');
                    proof {
                        assert(final(out)@ =~= old(out)@ + quoted_text(t@));
                    }
                },
            }
        },
        Expression::Procedure(p) => {
            push_block_text(out, &p.0);
        },
        Expression::List(es) => {
            out.push('[');
            push_exprs_items(out, es);
            if es.len() > 0 {
                out.push(' ');
            }
            out.push(']');
            proof {
                crate::model::lemma_exprs_view(es@);
                assert(final(out)@ =~= old(out)@ + expr_text(e@));
            }
        },
    }
}

/// Appends the inner rendering of a list of expressions.
fn push_exprs_items(out: &mut Vec<char>, es: &Vec<Expression>)
    ensures
        final(out)@ == old(out)@ + exprs_items(crate::model::exprs_view(es@)),
    decreases es@, 0nat,
{
    let ghost ev = crate::model::exprs_view(es@);
    proof {
        crate::model::lemma_exprs_view(es@);
        assert(ev.skip(0) =~= ev);
    }
    let mut i: usize = 0;
    while i < es.len()
        invariant
            i <= es.len(),
            ev == crate::model::exprs_view(es@),
            ev.len() == es@.len(),
            forall|j: int| 0 <= j < ev.len() ==> ev[j] == crate::model::expr_view(es@[j]),
            out@ + exprs_items(ev.skip(i as int)) == old(out)@ + exprs_items(ev),
        decreases es@.len() - i,
    {
        let ghost pre = out@;
        out.push(' ');
        push_expr_text(out, &es[i]);
        proof {
            assert(ev.skip(i as int).drop_first() =~= ev.skip(i + 1 as int));
            assert(ev.skip(i as int)[0] == ev[i as int]);
            assert(out@ =~= pre + seq![' '] + expr_text(ev[i as int]));
            assert(pre + exprs_items(ev.skip(i as int)) =~= pre + seq![' '] + expr_text(
                ev[i as int],
            ) + exprs_items(ev.skip(i + 1 as int)));
            assert(out@ + exprs_items(ev.skip(i + 1 as int)) =~= pre + exprs_items(
                ev.skip(i as int),
            ));
        }
        i += 1;
    }
    proof {
        assert(exprs_items(ev.skip(es@.len() as int)) =~= Seq::<char>::empty());
        assert(out@ =~= out@ + exprs_items(ev.skip(es@.len() as int)));
    }
}

impl Value {
    /// The display form of this value.
    pub fn to_text(&self) -> (r: String)
        ensures
            r@ == value_text(self@),
    {
        let mut out: Vec<char> = Vec::new();
        push_value_text(&mut out, self);
        chars_to_string(&out)
    }
}

impl Statement {
    /// The display form of this statement.
    pub fn to_text(&self) -> (r: String)
        ensures
            r@ == stmt_text(self@),
    {
        let mut out: Vec<char> = Vec::new();
        push_stmt_text(&mut out, self);
        chars_to_string(&out)
    }
}

impl Expression {
    /// The display form of this expression.
    pub fn to_text(&self) -> (r: String)
        ensures
            r@ == expr_text(self@),
    {
        let mut out: Vec<char> = Vec::new();
        push_expr_text(&mut out, self);
        chars_to_string(&out)
    }
}

impl Procedure {
    /// The display form of this procedure, braces included.
    pub fn to_text(&self) -> (r: String)
        ensures
            r@ == block_text(self@),
    {
        let mut out: Vec<char> = Vec::new();
        push_block_text(&mut out, &self.0);
        chars_to_string(&out)
    }
}

impl Literal {
    /// The display form of this literal.
    pub fn to_text(&self) -> (r: String)
        ensures
            r@ == lit_text(self@),
    {
        let mut out: Vec<char> = Vec::new();
        match self {
            Literal::Bool(b) => {
                if *b {
                    out.push('t');
                    out.push('r');
                    out.push('u');
                    out.push('e');
                } else {
                    out.push('f');
                    out.push('a');
                    out.push('l');
                    out.push('s');
                    out.push('e');
                }
                proof {
                    assert(out@ =~= bool_text(*b));
                }
            },
            Literal::Number(n) => {
                push_i64(&mut out, *n);
                proof {
                    assert(out@ =~= int_text(*n as int));
                }
            },
            Literal::String(t) => {
                out.push('"');
                push_str_chars(&mut out, t.as_str());
                out.push('"');
                proof {
                    assert(out@ =~= quoted_text(t@));
                }
            },
        }
        chars_to_string(&out)
    }
}

impl RuntimeError {
    /// The human-readable message this error renders to.
    pub fn render(&self) -> (r: String)
        ensures
            r@ == err_text(self@),
    {
        let mut out: Vec<char> = Vec::new();
        match self {
            RuntimeError::Arity { op, expected, actual } => {
                push_str_chars(&mut out, "Operation `");
                push_str_chars(&mut out, op.as_str());
                push_str_chars(&mut out, "` expected ");
                push_u64_digits(&mut out, *expected as u64);
                push_str_chars(&mut out, " argument(s), got ");
                push_u64_digits(&mut out, *actual as u64);
                proof {
                    reveal_strlit("Operation `");
                    reveal_strlit("` expected ");
                    reveal_strlit(" argument(s), got ");
                    assert(out@ =~= err_text(self@));
                }
            },
            RuntimeError::TypeMismatch { op, operands } => {
                push_str_chars(&mut out, "Can't apply `");
                push_str_chars(&mut out, op.as_str());
                push_str_chars(&mut out, "` to");
                push_values_items(&mut out, operands);
                proof {
                    reveal_strlit("Can't apply `");
                    reveal_strlit("` to");
                    assert(out@ =~= err_text(self@));
                }
            },
            RuntimeError::UnresolvedIdentifier { identifier } => {
                push_str_chars(&mut out, "Couldn't resolve identifier \"");
                push_str_chars(&mut out, identifier.as_str());
                out.push('"');
                proof {
                    reveal_strlit("Couldn't resolve identifier \"");
                    assert(out@ =~= err_text(self@));
                }
            },
            RuntimeError::IndexOutOfRange { index, length } => {
                push_str_chars(&mut out, "Index ");
                push_i64(&mut out, *index);
                push_str_chars(&mut out, " out of bounds for length ");
                push_u64_digits(&mut out, *length as u64);
                proof {
                    reveal_strlit("Index ");
                    reveal_strlit(" out of bounds for length ");
                    assert(out@ =~= err_text(self@));
                }
            },
            RuntimeError::StepLimit => {
                push_str_chars(&mut out, "Step limit exceeded");
                proof {
                    reveal_strlit("Step limit exceeded");
                    assert(out@ =~= err_text(self@));
                }
            },
        }
        chars_to_string(&out)
    }
}

} // verus!
