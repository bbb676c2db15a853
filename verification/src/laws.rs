//! Laws of the language: algebraic identities of the stack shufflers, the
//! arity guarantee, the error guarantees of `eval`, words and `nth`, and the
//! parser's longest-token ordering.
use vstd::prelude::*;
use crate::ast::{builtin_arity, builtin_token, Builtin};
use crate::error::RtErrV;
use crate::interpreter::{step1, steps_to, StateV};
use crate::model::{ExpressionV, LiteralV, StatementV, ValueV};
use crate::parser::{builtin_order, p_builtin, p_builtin_from, tag_at, PRes};

verus! {

/// `dup` followed by `drop` is a no-op on the visible stack: for any state
/// with at least one stack value whose next two pending statements are `dup`
/// and `drop`, both steps succeed and leave the stack, the environment and
/// the output exactly as they were, consuming just those two statements.
pub proof fn lemma_dup_drop_no_op(s: StateV)
    requires
        s.stack.len() >= 1,
        s.pending.len() >= 2,
        s.pending[0] == StatementV::Builtin(Builtin::Dup),
        s.pending[1] == StatementV::Builtin(Builtin::Drop),
    ensures
        step1(s) is Ok,
        step1(step1(s)->Ok_0) is Ok,
        step1(step1(s)->Ok_0)->Ok_0 == (StateV { pending: s.pending.skip(2), ..s }),
{
    let s1 = step1(s)->Ok_0;
    assert(s1.stack == s.stack.push(s.stack.last()));
    assert(s1.pending[0] == s.pending.drop_first()[0]);
    let s2 = step1(s1)->Ok_0;
    assert(s2.stack =~= s.stack) by {
        assert(s1.stack.take(s1.stack.len() - 1) =~= s.stack);
    }
    assert(s2.pending =~= s.pending.skip(2));
    assert(s2 =~= (StateV { pending: s.pending.skip(2), ..s }));
}

/// `swap` followed by `swap` is a no-op: for any state with at least two
/// stack values whose next two pending statements are both `swap`, both
/// steps succeed and restore the original stack, environment and output,
/// consuming just those two statements.
pub proof fn lemma_swap_swap_no_op(s: StateV)
    requires
        s.stack.len() >= 2,
        s.pending.len() >= 2,
        s.pending[0] == StatementV::Builtin(Builtin::Swap),
        s.pending[1] == StatementV::Builtin(Builtin::Swap),
    ensures
        step1(s) is Ok,
        step1(step1(s)->Ok_0) is Ok,
        step1(step1(s)->Ok_0)->Ok_0 == (StateV { pending: s.pending.skip(2), ..s }),
{
    let n = s.stack.len() as int;
    let s1 = step1(s)->Ok_0;
    assert(s1.stack == s.stack.take(n - 2).push(s.stack[n - 1]).push(s.stack[n - 2]));
    assert(s1.stack.len() == n);
    assert(s1.pending[0] == s.pending.drop_first()[0]);
    let s2 = step1(s1)->Ok_0;
    assert(s2.stack =~= s.stack) by {
        assert(s1.stack.take(n - 2) =~= s.stack.take(n - 2));
        assert(s1.stack[n - 1] == s.stack[n - 2]);
        assert(s1.stack[n - 2] == s.stack[n - 1]);
    }
    assert(s2.pending =~= s.pending.skip(2));
    assert(s2 =~= (StateV { pending: s.pending.skip(2), ..s }));
}

/// Arity check: any builtin executed on a stack shorter than its arity
/// yields an arity error naming the operation's token, its required arity
/// and the actual depth.
pub proof fn lemma_arity_error(s: StateV, b: Builtin)
    requires
        s.pending.len() >= 1,
        s.pending[0] == StatementV::Builtin(b),
        s.stack.len() < builtin_arity(b),
    ensures
        step1(s) == Err::<StateV, RtErrV>(
            RtErrV::Arity {
                op: builtin_token(b),
                expected: builtin_arity(b),
                actual: s.stack.len(),
            },
        ),
{
}

/// `eval` on a non-procedure top of stack yields a type-mismatch error
/// naming the operation and the offending value.
pub proof fn lemma_eval_type_mismatch(s: StateV)
    requires
        s.pending.len() >= 1,
        s.pending[0] == StatementV::Builtin(Builtin::Eval),
        s.stack.len() >= 1,
        !(s.stack.last() is Procedure),
    ensures
        step1(s) == Err::<StateV, RtErrV>(
            RtErrV::TypeMismatch {
                op: builtin_token(Builtin::Eval),
                operands: seq![s.stack.last()],
            },
        ),
{
}

/// `eval` on a procedure splices its body to the front of the pending
/// queue, so the quotation's statements execute before everything already
/// queued.
pub proof fn lemma_eval_splices(s: StateV, body: Seq<StatementV>)
    requires
        s.pending.len() >= 1,
        s.pending[0] == StatementV::Builtin(Builtin::Eval),
        s.stack.len() >= 1,
        s.stack.last() == ValueV::Procedure(body),
    ensures
        step1(s) == Ok::<StateV, RtErrV>(
            StateV {
                stack: s.stack.drop_last(),
                pending: body + s.pending.drop_first(),
                ..s
            },
        ),
{
    let n = s.stack.len() as int;
    assert(s.stack.take(n - 1) =~= s.stack.drop_last());
    assert(step1(s)->Ok_0 =~= (StateV {
        stack: s.stack.drop_last(),
        pending: body + s.pending.drop_first(),
        ..s
    }));
}

/// A word bound in the environment splices its bound body to the front of
/// the pending queue; the stack, the environment and the output are
/// untouched.
pub proof fn lemma_word_splices(s: StateV, w: Seq<char>)
    requires
        s.pending.len() >= 1,
        s.pending[0] == StatementV::Word(w),
        s.definitions.contains_key(w),
    ensures
        step1(s) == Ok::<StateV, RtErrV>(
            StateV { pending: s.definitions[w] + s.pending.drop_first(), ..s },
        ),
{
    assert(step1(s)->Ok_0 =~= (StateV {
        pending: s.definitions[w] + s.pending.drop_first(),
        ..s
    }));
}

/// An unbound word yields an unresolved-identifier error naming the word.
pub proof fn lemma_unresolved_word(s: StateV, w: Seq<char>)
    requires
        s.pending.len() >= 1,
        s.pending[0] == StatementV::Word(w),
        !s.definitions.contains_key(w),
    ensures
        step1(s) == Err::<StateV, RtErrV>(RtErrV::UnresolvedIdentifier { identifier: w }),
{
}

/// `nth` with an integral index outside the list's range yields an
/// index-out-of-range error carrying the index and the length.
pub proof fn lemma_nth_out_of_range(s: StateV, i: int, vs: Seq<ValueV>)
    requires
        s.pending.len() >= 1,
        s.pending[0] == StatementV::Builtin(Builtin::Nth),
        s.stack.len() >= 2,
        s.stack[s.stack.len() - 2] == ValueV::Number(i),
        s.stack[s.stack.len() - 1] == ValueV::List(vs),
        i < 0 || i >= vs.len(),
    ensures
        step1(s) == Err::<StateV, RtErrV>(RtErrV::IndexOutOfRange { index: i, length: vs.len() }),
{
}

/// `nth` with an index inside the list's range pops both operands and
/// pushes exactly the indexed element.
pub proof fn lemma_nth_in_range(s: StateV, i: int, vs: Seq<ValueV>)
    requires
        s.pending.len() >= 1,
        s.pending[0] == StatementV::Builtin(Builtin::Nth),
        s.stack.len() >= 2,
        s.stack[s.stack.len() - 2] == ValueV::Number(i),
        s.stack[s.stack.len() - 1] == ValueV::List(vs),
        0 <= i < vs.len(),
    ensures
        step1(s) == Ok::<StateV, RtErrV>(
            StateV {
                stack: s.stack.take(s.stack.len() - 2).push(vs[i]),
                pending: s.pending.drop_first(),
                ..s
            },
        ),
{
    assert(step1(s)->Ok_0 =~= (StateV {
        stack: s.stack.take(s.stack.len() - 2).push(vs[i]),
        pending: s.pending.drop_first(),
        ..s
    }));
}

/// A one-character tag matches exactly when its character stands at the
/// position.
proof fn lemma_tag_one(s: Seq<char>, i: int, c: char)
    requires
        0 <= i < s.len(),
    ensures
        tag_at(s, i, seq![c]) <==> s[i] == c,
{
    if s[i] == c {
        assert(s.subrange(i, i + 1) =~= seq![c]);
    }
    if tag_at(s, i, seq![c]) {
        assert(s.subrange(i, i + 1)[0] == s[i]);
    }
}

/// Parser ordering: input that starts with `<=` parses as the
/// less-than-or-equal builtin, consuming both characters — never as
/// less-than with a leftover `=`.
pub proof fn lemma_le_before_lt(s: Seq<char>, i: int)
    requires
        tag_at(s, i, seq!['<', '=']),
    ensures
        p_builtin(s, i) == PRes::<Builtin>::Parsed(i + 2, Builtin::Le),
{
    reveal_with_fuel(p_builtin_from, 8);
    assert(s.subrange(i, i + 2) =~= seq!['<', '=']);
    assert(s[i] == '<') by {
        assert(s.subrange(i, i + 2)[0] == s[i]);
    }
    lemma_tag_one(s, i, '+');
    lemma_tag_one(s, i, '-');
    lemma_tag_one(s, i, '*');
    lemma_tag_one(s, i, '/');
    lemma_tag_one(s, i, '=');
    lemma_tag_one(s, i, '!');
    assert(builtin_order()[6] == Builtin::Le);
    assert(tag_at(s, i, builtin_token(Builtin::Le)));
}

/// The quotation example, end to end: with 5 on the stack, a program that
/// pushes the quotation `{ 1 + }` and evaluates it drains in four steps to
/// the single stack value 6. Through `run_program`'s contract and the chain
/// lemmas (`lemma_drained_unique`, `lemma_steps_to_halted`,
/// `lemma_steps_to_no_error`), 6 is the only outcome the engine may report
/// for this program.
pub proof fn lemma_eval_example(st: StateV)
    requires
        st.stack == seq![ValueV::Number(5)],
        st.pending == seq![
            StatementV::Expression(
                ExpressionV::Procedure(
                    seq![
                        StatementV::Expression(ExpressionV::Literal(LiteralV::Number(1))),
                        StatementV::Builtin(Builtin::Add),
                    ],
                ),
            ),
            StatementV::Builtin(Builtin::Eval),
        ],
    ensures
        steps_to(
            st,
            StateV { stack: seq![ValueV::Number(6)], pending: Seq::empty(), ..st },
            4,
        ),
{
    let body = seq![
        StatementV::Expression(ExpressionV::Literal(LiteralV::Number(1))),
        StatementV::Builtin(Builtin::Add),
    ];
    let s1 = StateV {
        stack: seq![ValueV::Number(5), ValueV::Procedure(body)],
        pending: seq![StatementV::Builtin(Builtin::Eval)],
        ..st
    };
    assert(step1(st) is Ok && step1(st)->Ok_0 =~= s1) by {
        assert(st.pending.drop_first() =~= seq![StatementV::Builtin(Builtin::Eval)]);
        assert(st.stack.push(ValueV::Procedure(body)) =~= s1.stack);
    }
    let s2 = StateV { stack: seq![ValueV::Number(5)], pending: body, ..st };
    assert(step1(s1) is Ok && step1(s1)->Ok_0 =~= s2) by {
        assert(s1.pending.drop_first() =~= Seq::<StatementV>::empty());
        assert(s1.stack.take(1) =~= seq![ValueV::Number(5)]);
        assert(body + Seq::<StatementV>::empty() =~= body);
    }
    let s3 = StateV {
        stack: seq![ValueV::Number(5), ValueV::Number(1)],
        pending: seq![StatementV::Builtin(Builtin::Add)],
        ..st
    };
    assert(step1(s2) is Ok && step1(s2)->Ok_0 =~= s3) by {
        assert(s2.pending.drop_first() =~= seq![StatementV::Builtin(Builtin::Add)]);
        assert(s2.stack.push(ValueV::Number(1)) =~= s3.stack);
    }
    let s4 = StateV { stack: seq![ValueV::Number(6)], pending: Seq::empty(), ..st };
    assert(step1(s3) is Ok && step1(s3)->Ok_0 =~= s4) by {
        assert(s3.pending.drop_first() =~= Seq::<StatementV>::empty());
        assert(crate::value::wrap_add(5, 1) == 6);
        assert(s3.stack.take(0).push(ValueV::Number(6)) =~= s4.stack);
    }
    assert(steps_to(s4, s4, 0));
    assert(steps_to(s3, s4, 1));
    assert(steps_to(s2, s4, 2));
    assert(steps_to(s1, s4, 3));
    assert(steps_to(st, s4, 4));
}

/// The conditional example, end to end: with a true condition under a then-
/// and an else-quotation, `if` splices the then-body, and the program
/// drains in two steps to the then-branch's value.
pub proof fn lemma_if_example(st: StateV, tv: int, ev: int)
    requires
        st.stack == seq![
            ValueV::Bool(true),
            ValueV::Procedure(
                seq![StatementV::Expression(ExpressionV::Literal(LiteralV::Number(tv)))],
            ),
            ValueV::Procedure(
                seq![StatementV::Expression(ExpressionV::Literal(LiteralV::Number(ev)))],
            ),
        ],
        st.pending == seq![StatementV::Builtin(Builtin::If)],
    ensures
        steps_to(st, StateV { stack: seq![ValueV::Number(tv)], pending: Seq::empty(), ..st }, 2),
{
    let then_body = seq![StatementV::Expression(ExpressionV::Literal(LiteralV::Number(tv)))];
    let s1 = StateV { stack: Seq::empty(), pending: then_body, ..st };
    assert(step1(st) is Ok && step1(st)->Ok_0 =~= s1) by {
        assert(st.pending.drop_first() =~= Seq::<StatementV>::empty());
        assert(st.stack.take(0) =~= Seq::<ValueV>::empty());
        assert(then_body + Seq::<StatementV>::empty() =~= then_body);
    }
    let s2 = StateV { stack: seq![ValueV::Number(tv)], pending: Seq::empty(), ..st };
    assert(step1(s1) is Ok && step1(s1)->Ok_0 =~= s2) by {
        assert(s1.pending.drop_first() =~= Seq::<StatementV>::empty());
        assert(s1.stack.push(ValueV::Number(tv)) =~= s2.stack);
    }
    assert(steps_to(s2, s2, 0));
    assert(steps_to(s1, s2, 1));
    assert(steps_to(st, s2, 2));
}

/// The definition example, end to end: with 5 on the stack, defining `inc`
/// as `{ 1 + }` and then invoking the word drains in four steps to the
/// single stack value 6, with the binding left in the environment.
pub proof fn lemma_definition_example(st: StateV)
    requires
        st.stack == seq![ValueV::Number(5)],
        st.pending == seq![
            StatementV::Definition {
                identifier: seq!['i', 'n', 'c'],
                procedure: seq![
                    StatementV::Expression(ExpressionV::Literal(LiteralV::Number(1))),
                    StatementV::Builtin(Builtin::Add),
                ],
            },
            StatementV::Word(seq!['i', 'n', 'c']),
        ],
    ensures
        steps_to(
            st,
            StateV {
                stack: seq![ValueV::Number(6)],
                pending: Seq::empty(),
                definitions: st.definitions.insert(
                    seq!['i', 'n', 'c'],
                    seq![
                        StatementV::Expression(ExpressionV::Literal(LiteralV::Number(1))),
                        StatementV::Builtin(Builtin::Add),
                    ],
                ),
                ..st
            },
            4,
        ),
{
    let name = seq!['i', 'n', 'c'];
    let body = seq![
        StatementV::Expression(ExpressionV::Literal(LiteralV::Number(1))),
        StatementV::Builtin(Builtin::Add),
    ];
    let defs = st.definitions.insert(name, body);
    let s1 = StateV {
        stack: seq![ValueV::Number(5)],
        pending: seq![StatementV::Word(name)],
        definitions: defs,
        ..st
    };
    assert(step1(st) is Ok && step1(st)->Ok_0 =~= s1) by {
        assert(st.pending.drop_first() =~= seq![StatementV::Word(name)]);
    }
    let s2 = StateV { stack: seq![ValueV::Number(5)], pending: body, definitions: defs, ..st };
    assert(step1(s1) is Ok && step1(s1)->Ok_0 =~= s2) by {
        assert(s1.pending.drop_first() =~= Seq::<StatementV>::empty());
        assert(body + Seq::<StatementV>::empty() =~= body);
    }
    let s3 = StateV {
        stack: seq![ValueV::Number(5), ValueV::Number(1)],
        pending: seq![StatementV::Builtin(Builtin::Add)],
        definitions: defs,
        ..st
    };
    assert(step1(s2) is Ok && step1(s2)->Ok_0 =~= s3) by {
        assert(s2.pending.drop_first() =~= seq![StatementV::Builtin(Builtin::Add)]);
        assert(s2.stack.push(ValueV::Number(1)) =~= s3.stack);
    }
    let s4 = StateV {
        stack: seq![ValueV::Number(6)],
        pending: Seq::empty(),
        definitions: defs,
        ..st
    };
    assert(step1(s3) is Ok && step1(s3)->Ok_0 =~= s4) by {
        assert(s3.pending.drop_first() =~= Seq::<StatementV>::empty());
        assert(crate::value::wrap_add(5, 1) == 6);
        assert(s3.stack.take(0).push(ValueV::Number(6)) =~= s4.stack);
    }
    assert(steps_to(s4, s4, 0));
    assert(steps_to(s3, s4, 1));
    assert(steps_to(s2, s4, 2));
    assert(steps_to(s1, s4, 3));
    assert(steps_to(st, s4, 4));
}

} // verus!
