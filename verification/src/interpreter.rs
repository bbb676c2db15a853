//! The evaluation engine: an explicit value stack, a pending-statement work
//! queue, and a word environment. Control flow never uses the host call
//! stack: quotation evaluation, conditionals and word expansion all splice
//! statement sequences onto the front of the pending queue.
use std::collections::VecDeque;
use vstd::prelude::*;
use vstd::string::StrSliceExecFns;
use crate::ast::{builtin_arity, builtin_token, Builtin, Expression, Procedure, Program, Statement};
use crate::error::{RtErrV, RuntimeError};
use crate::model::{
    lemma_stmts_view, lemma_stmts_view_concat, lemma_values_view, stmt_view, stmts_view,
    value_of_expr, value_view, values_view, StatementV, ValueV,
};
use crate::text::{str_eq, value_text};
use crate::value::{
    add_values, cmp_value, div_values, mul_values, not_value, sub_values, type_mismatch1,
    type_mismatch2, Order, Value,
};

verus! {

/// The model of an engine: the stack (top at the end), the pending work
/// queue (front at index zero), the word environment, and the lines printed
/// so far.
#[verifier::ext_equal]
pub ghost struct StateV {
    pub stack: Seq<ValueV>,
    pub pending: Seq<StatementV>,
    pub definitions: Map<Seq<char>, Seq<StatementV>>,
    pub output: Seq<Seq<char>>,
}

/// The environment an ordered binding list denotes: the last binding for a
/// name wins.
pub open spec fn defs_view(ds: Seq<(String, Procedure)>) -> Map<Seq<char>, Seq<StatementV>>
    decreases ds,
{
    if ds.len() == 0 {
        Map::empty()
    } else {
        defs_view(ds.drop_last()).insert(ds.last().0@, stmts_view(ds.last().1.0@))
    }
}

/// The lines printed so far, as character sequences.
pub open spec fn outputs_view(os: Seq<String>) -> Seq<Seq<char>> {
    Seq::new(os.len(), |i: int| os[i]@)
}

/// The environment holds a name exactly when some binding carries it, and
/// the bound body is the one of the last such binding.
pub proof fn lemma_defs_view(ds: Seq<(String, Procedure)>, key: Seq<char>)
    ensures
        defs_view(ds).contains_key(key) <==> (exists|j: int|
            0 <= j < ds.len() && #[trigger] ds[j].0@ == key),
        forall|i: int|
            (0 <= i < ds.len() && ds[i].0@ == key && (forall|j: int|
                i < j < ds.len() ==> #[trigger] ds[j].0@ != key)) ==> defs_view(ds)[key]
                == stmts_view(#[trigger] ds[i].1.0@),
    decreases ds,
{
    if ds.len() > 0 {
        let prefix = ds.drop_last();
        let last = (ds.len() - 1) as int;
        lemma_defs_view(prefix, key);
        assert(forall|j: int| 0 <= j < prefix.len() ==> prefix[j] == #[trigger] ds[j]);
        if ds[last].0@ == key {
            assert(defs_view(ds).contains_key(key));
        } else {
            if defs_view(ds).contains_key(key) {
                assert(defs_view(prefix).contains_key(key));
                let j = choose|j: int| 0 <= j < prefix.len() && #[trigger] prefix[j].0@ == key;
                assert(ds[j].0@ == key);
            }
            if exists|j: int| 0 <= j < ds.len() && #[trigger] ds[j].0@ == key {
                let j = choose|j: int| 0 <= j < ds.len() && #[trigger] ds[j].0@ == key;
                assert(prefix[j].0@ == key);
                assert(defs_view(prefix).contains_key(key));
                assert(defs_view(ds).contains_key(key));
            }
        }
        assert forall|i: int|
            (0 <= i < ds.len() && ds[i].0@ == key && (forall|j: int|
                i < j < ds.len() ==> #[trigger] ds[j].0@ != key)) implies defs_view(ds)[key]
            == stmts_view(#[trigger] ds[i].1.0@) by {
            if i == last {
                assert(defs_view(ds)[key] == stmts_view(ds[last].1.0@));
            } else {
                assert(ds[last].0@ != key);
                assert(prefix[i].0@ == key);
                assert forall|j: int| i < j < prefix.len() implies #[trigger] prefix[j].0@
                    != key by {
                    assert(prefix[j] == ds[j]);
                    assert(ds[j].0@ != key);
                }
                assert(defs_view(prefix)[key] == stmts_view(prefix[i].1.0@));
                assert(defs_view(ds)[key] == defs_view(prefix)[key]);
            }
        }
    }
}

/// The evaluation engine. The stack, pending queue and definitions persist
/// across successive runs on the same engine; printed lines accumulate in
/// `output` for the caller to drain.
pub struct Interpreter {
    /// The value stack; the top is the last element.
    pub stack: Vec<Value>,
    /// Work not yet executed, drained front to back.
    pub statements: VecDeque<Statement>,
    /// The word environment: later bindings shadow earlier ones.
    pub definitions: Vec<(String, Procedure)>,
    /// Lines produced by `println`, oldest first.
    pub output: Vec<String>,
}

impl View for Interpreter {
    type V = StateV;

    open spec fn view(&self) -> StateV {
        StateV {
            stack: values_view(self.stack@),
            pending: stmts_view(self.statements@),
            definitions: defs_view(self.definitions@),
            output: outputs_view(self.output@),
        }
    }
}

impl Interpreter {
    /// A fresh engine: empty stack, empty queue, empty environment, no
    /// output.
    pub fn new() -> (r: Interpreter)
        ensures
            r@ == (StateV {
                stack: Seq::<ValueV>::empty(),
                pending: Seq::<StatementV>::empty(),
                definitions: Map::<Seq<char>, Seq<StatementV>>::empty(),
                output: Seq::<Seq<char>>::empty(),
            }),
    {
        let r = Interpreter {
            stack: Vec::new(),
            statements: VecDeque::new(),
            definitions: Vec::new(),
            output: Vec::new(),
        };
        proof {
            assert(r@ =~= (StateV {
                stack: Seq::<ValueV>::empty(),
                pending: Seq::<StatementV>::empty(),
                definitions: Map::<Seq<char>, Seq<StatementV>>::empty(),
                output: Seq::<Seq<char>>::empty(),
            }));
            assert(values_view(r.stack@) =~= Seq::<ValueV>::empty());
            assert(stmts_view(r.statements@) =~= Seq::<StatementV>::empty());
            assert(outputs_view(r.output@) =~= Seq::<Seq<char>>::empty());
        }
        r
    }

    /// Checks that the stack holds at least `args` values for operation
    /// `name`; reports an arity error naming the operation and both counts
    /// otherwise.
    fn expect_args(&self, args: usize, name: &str) -> (r: Result<(), RuntimeError>)
        ensures
            match r {
                Ok(()) => self@.stack.len() >= args,
                Err(e) => self@.stack.len() < args && e@ == (RtErrV::Arity {
                    op: name@,
                    expected: args as nat,
                    actual: self@.stack.len(),
                }),
            },
    {
        proof {
            lemma_values_view(self.stack@);
        }
        let n = self.stack.len();
        if n < args {
            Err(RuntimeError::Arity { op: name.to_owned(), expected: args, actual: n })
        } else {
            Ok(())
        }
    }

    /// Pushes a value onto the stack.
    fn push(&mut self, value: Value) -> (r: Result<(), RuntimeError>)
        ensures
            r is Ok,
            final(self)@ == (StateV { stack: old(self)@.stack.push(value@), ..old(self)@ }),
    {
        let ghost pre = self.stack@;
        self.stack.push(value);
        proof {
            lemma_values_view(pre);
            lemma_values_view(self.stack@);
            assert(values_view(self.stack@) =~= values_view(pre).push(value_view(
                self.stack@[pre.len() as int],
            )));
            assert(final(self)@ =~= (StateV { stack: old(self)@.stack.push(value@), ..old(self)@ }));
        }
        Ok(())
    }

    /// Pops the top value; an arity error on an empty stack.
    fn pop(&mut self) -> (r: Result<Value, RuntimeError>)
        ensures
            match r {
                Ok(v) => old(self)@.stack.len() > 0 && v@ == old(self)@.stack.last()
                    && final(self)@ == (StateV {
                    stack: old(self)@.stack.drop_last(),
                    ..old(self)@
                }),
                Err(e) => old(self)@.stack.len() == 0 && *final(self) == *old(self) && e@
                    == (RtErrV::Arity { op: seq!['p', 'o', 'p'], expected: 1, actual: 0 }),
            },
    {
        proof {
            lemma_values_view(self.stack@);
        }
        if self.stack.len() == 0 {
            proof {
                reveal_strlit("pop");
                assert("pop"@ =~= seq!['p', 'o', 'p']);
            }
            return Err(RuntimeError::Arity { op: "pop".to_owned(), expected: 1, actual: 0 });
        }
        let ghost pre = self.stack@;
        let v = self.stack.pop().unwrap();
        proof {
            lemma_values_view(pre);
            lemma_values_view(self.stack@);
            assert(values_view(self.stack@) =~= values_view(pre).drop_last());
            assert(final(self)@ =~= (StateV {
                stack: old(self)@.stack.drop_last(),
                ..old(self)@
            }));
        }
        Ok(v)
    }

    /// Binds a word: later bindings shadow earlier ones.
    fn def(&mut self, identifier: String, procedure: Procedure) -> (r: Result<(), RuntimeError>)
        ensures
            r is Ok,
            final(self)@ == (StateV {
                definitions: old(self)@.definitions.insert(identifier@, procedure@),
                ..old(self)@
            }),
    {
        let ghost id = identifier@;
        let ghost body = procedure@;
        self.definitions.push((identifier, procedure));
        proof {
            assert(self.definitions@.drop_last() =~= old(self).definitions@);
            assert(final(self)@ =~= (StateV {
                definitions: old(self)@.definitions.insert(id, body),
                ..old(self)@
            }));
        }
        Ok(())
    }

    /// Resolves a word against the environment: the last binding wins; an
    /// unbound word is an unresolved-identifier error.
    fn resolve(&self, identifier: &str) -> (r: Result<&Procedure, RuntimeError>)
        ensures
            match r {
                Ok(p) => self@.definitions.contains_key(identifier@) && p@
                    == self@.definitions[identifier@],
                Err(e) => !self@.definitions.contains_key(identifier@) && e@
                    == (RtErrV::UnresolvedIdentifier { identifier: identifier@ }),
            },
    {
        proof {
            lemma_defs_view(self.definitions@, identifier@);
        }
        let mut i: usize = self.definitions.len();
        while i > 0
            invariant
                i <= self.definitions@.len(),
                forall|j: int|
                    i <= j < self.definitions@.len() ==> #[trigger] self.definitions@[j].0@
                        != identifier@,
            decreases i,
        {
            i = i - 1;
            if str_eq(self.definitions[i].0.as_str(), identifier) {
                proof {
                    lemma_defs_view(self.definitions@, identifier@);
                }
                return Ok(&self.definitions[i].1);
            }
        }
        proof {
            lemma_defs_view(self.definitions@, identifier@);
        }
        Err(RuntimeError::UnresolvedIdentifier { identifier: identifier.to_owned() })
    }

    /// Splices a statement sequence onto the front of the pending queue, so
    /// it executes before everything already queued.
    /// Cost: one queue operation per spliced statement; the queue already
    /// there is never traversed.
    fn prepend_statements(&mut self, statements: Vec<Statement>) -> (r: Result<(), RuntimeError>)
        ensures
            r is Ok,
            final(self)@ == (StateV {
                pending: stmts_view(statements@) + old(self)@.pending,
                ..old(self)@
            }),
    {
        let ghost whole = statements@;
        let ghost orig_q = self.statements@;
        let mut v = statements;
        proof {
            assert(v@ =~= whole.subrange(0, whole.len() as int));
            assert(whole.subrange(whole.len() as int, whole.len() as int) + orig_q =~= orig_q);
        }
        while v.len() > 0
            invariant
                v@.len() <= whole.len(),
                v@ == whole.subrange(0, v@.len() as int),
                self.statements@ == whole.subrange(v@.len() as int, whole.len() as int) + orig_q,
                self.stack == old(self).stack,
                self.definitions == old(self).definitions,
                self.output == old(self).output,
            decreases v.len(),
        {
            let ghost k = v@.len() as int;
            let s = v.pop().unwrap();
            self.statements.push_front(s);
            proof {
                assert(v@ =~= whole.subrange(0, k - 1));
                assert(self.statements@ =~= whole.subrange(k - 1, whole.len() as int) + orig_q);
            }
        }
        proof {
            assert(self.statements@ =~= whole + orig_q);
            lemma_stmts_view_concat(whole, orig_q);
            assert(final(self)@ =~= (StateV {
                pending: stmts_view(whole) + old(self)@.pending,
                ..old(self)@
            }));
        }
        Ok(())
    }
}

/// What one builtin does to a state whose pending queue already lacks the
/// builtin statement itself: an arity error when the stack is short, else
/// the operation's own effect.
pub open spec fn apply_builtin(b: Builtin, st: StateV) -> Result<StateV, RtErrV> {
    let n = st.stack.len() as int;
    if n < builtin_arity(b) {
        Err(RtErrV::Arity {
            op: builtin_token(b),
            expected: builtin_arity(b),
            actual: st.stack.len(),
        })
    } else {
        match b {
            Builtin::Add => match add_values(st.stack[n - 2], st.stack[n - 1]) {
                Ok(v) => Ok(StateV { stack: st.stack.take(n - 2).push(v), ..st }),
                Err(e) => Err(e),
            },
            Builtin::Sub => match sub_values(st.stack[n - 2], st.stack[n - 1]) {
                Ok(v) => Ok(StateV { stack: st.stack.take(n - 2).push(v), ..st }),
                Err(e) => Err(e),
            },
            Builtin::Mul => match mul_values(st.stack[n - 2], st.stack[n - 1]) {
                Ok(v) => Ok(StateV { stack: st.stack.take(n - 2).push(v), ..st }),
                Err(e) => Err(e),
            },
            Builtin::Div => match div_values(st.stack[n - 2], st.stack[n - 1]) {
                Ok(v) => Ok(StateV { stack: st.stack.take(n - 2).push(v), ..st }),
                Err(e) => Err(e),
            },
            Builtin::Eq => Ok(StateV {
                stack: st.stack.take(n - 2).push(
                    ValueV::Bool(st.stack[n - 2] == st.stack[n - 1]),
                ),
                ..st
            }),
            Builtin::Neg => match not_value(st.stack[n - 1]) {
                Ok(v) => Ok(StateV { stack: st.stack.take(n - 1).push(v), ..st }),
                Err(e) => Err(e),
            },
            Builtin::Lt => Ok(StateV {
                stack: st.stack.take(n - 2).push(
                    ValueV::Bool(cmp_value(st.stack[n - 2], st.stack[n - 1]) == Order::Less),
                ),
                ..st
            }),
            Builtin::Le => Ok(StateV {
                stack: st.stack.take(n - 2).push(
                    ValueV::Bool(cmp_value(st.stack[n - 2], st.stack[n - 1]) != Order::Greater),
                ),
                ..st
            }),
            Builtin::Gt => Ok(StateV {
                stack: st.stack.take(n - 2).push(
                    ValueV::Bool(cmp_value(st.stack[n - 2], st.stack[n - 1]) == Order::Greater),
                ),
                ..st
            }),
            Builtin::Ge => Ok(StateV {
                stack: st.stack.take(n - 2).push(
                    ValueV::Bool(cmp_value(st.stack[n - 2], st.stack[n - 1]) != Order::Less),
                ),
                ..st
            }),
            Builtin::Dup => Ok(StateV { stack: st.stack.push(st.stack[n - 1]), ..st }),
            Builtin::Dup2 => Ok(StateV {
                stack: st.stack.push(st.stack[n - 2]).push(st.stack[n - 1]),
                ..st
            }),
            Builtin::Swap => Ok(StateV {
                stack: st.stack.take(n - 2).push(st.stack[n - 1]).push(st.stack[n - 2]),
                ..st
            }),
            Builtin::Drop => Ok(StateV { stack: st.stack.take(n - 1), ..st }),
            Builtin::Drop2 => Ok(StateV { stack: st.stack.take(n - 2), ..st }),
            Builtin::Drop3 => Ok(StateV { stack: st.stack.take(n - 3), ..st }),
            Builtin::Over => Ok(StateV { stack: st.stack.push(st.stack[n - 2]), ..st }),
            Builtin::Dupd => Ok(StateV {
                stack: st.stack.take(n - 2).push(st.stack[n - 2]).push(st.stack[n - 2]).push(
                    st.stack[n - 1],
                ),
                ..st
            }),
            Builtin::Rotl => Ok(StateV {
                stack: st.stack.take(n - 3).push(st.stack[n - 2]).push(st.stack[n - 1]).push(
                    st.stack[n - 3],
                ),
                ..st
            }),
            Builtin::Rotr => Ok(StateV {
                stack: st.stack.take(n - 3).push(st.stack[n - 1]).push(st.stack[n - 3]).push(
                    st.stack[n - 2],
                ),
                ..st
            }),
            Builtin::Keep => match st.stack[n - 1] {
                ValueV::Procedure(body) => Ok(StateV {
                    stack: st.stack.take(n - 1),
                    pending: body + seq![StatementV::Value(st.stack[n - 2])] + st.pending,
                    ..st
                }),
                _ => Err(RtErrV::TypeMismatch {
                    op: builtin_token(b),
                    operands: seq![st.stack[n - 1]],
                }),
            },
            Builtin::Eval => match st.stack[n - 1] {
                ValueV::Procedure(body) => Ok(StateV {
                    stack: st.stack.take(n - 1),
                    pending: body + st.pending,
                    ..st
                }),
                _ => Err(RtErrV::TypeMismatch {
                    op: builtin_token(b),
                    operands: seq![st.stack[n - 1]],
                }),
            },
            Builtin::Println => Ok(StateV {
                stack: st.stack.take(n - 1),
                output: st.output.push(
                    match st.stack[n - 1] {
                        ValueV::Text(t) => t,
                        v => value_text(v),
                    },
                ),
                ..st
            }),
            Builtin::If => {
                let chosen = if st.stack[n - 3] == ValueV::Bool(true) {
                    st.stack[n - 2]
                } else {
                    st.stack[n - 1]
                };
                match chosen {
                    ValueV::Procedure(body) => Ok(StateV {
                        stack: st.stack.take(n - 3),
                        pending: body + st.pending,
                        ..st
                    }),
                    _ => Err(RtErrV::TypeMismatch { op: builtin_token(b), operands: seq![chosen] }),
                }
            },
            Builtin::Nth => match (st.stack[n - 2], st.stack[n - 1]) {
                (ValueV::Number(i), ValueV::List(vs)) => if 0 <= i < vs.len() {
                    Ok(StateV { stack: st.stack.take(n - 2).push(vs[i]), ..st })
                } else {
                    Err(RtErrV::IndexOutOfRange { index: i, length: vs.len() })
                },
                _ => Err(RtErrV::TypeMismatch {
                    op: builtin_token(b),
                    operands: seq![st.stack[n - 1], st.stack[n - 2]],
                }),
            },
        }
    }
}

/// What one statement does to a state whose pending queue already lacks the
/// statement itself.
pub open spec fn step_stmt(s: StatementV, st: StateV) -> Result<StateV, RtErrV> {
    match s {
        StatementV::Expression(e) => Ok(StateV { stack: st.stack.push(value_of_expr(e)), ..st }),
        StatementV::Builtin(b) => apply_builtin(b, st),
        StatementV::Value(v) => Ok(StateV { stack: st.stack.push(v), ..st }),
        StatementV::Definition { identifier, procedure } => Ok(StateV {
            definitions: st.definitions.insert(identifier, procedure),
            ..st
        }),
        StatementV::Word(w) => if st.definitions.contains_key(w) {
            Ok(StateV { pending: st.definitions[w] + st.pending, ..st })
        } else {
            Err(RtErrV::UnresolvedIdentifier { identifier: w })
        },
    }
}

/// One step of the drain loop: remove the front pending statement and
/// execute it.
pub open spec fn step1(st: StateV) -> Result<StateV, RtErrV>
    recommends
        st.pending.len() > 0,
{
    step_stmt(st.pending[0], StateV { pending: st.pending.drop_first(), ..st })
}

/// How an executed statement relates the engine states before and after it,
/// and the result it reports. On an error the statement is consumed, the
/// environment and output are untouched, and the stack keeps everything but
/// the failing operation's consumed operands: it stays a prefix of the
/// erring stack, untouched entirely on an arity error.
pub open spec fn stmt_rel(
    s: StatementV,
    pre: StateV,
    post: StateV,
    r: Result<(), RuntimeError>,
) -> bool {
    match step_stmt(s, pre) {
        Ok(st) => r is Ok && post == st,
        Err(e) => r is Err && r->Err_0@ == e && post.pending == pre.pending && post.definitions
            == pre.definitions && post.output == pre.output && post.stack.len()
            <= pre.stack.len() && (post.stack =~= pre.stack.take(post.stack.len() as int)) && (
        e is Arity ==> post.stack == pre.stack),
    }
}

/// How the engine's state after an error relates to the erring state `s`:
/// the failing statement is consumed, the environment and the output are
/// untouched, and the stack keeps everything but the failing operation's
/// consumed operands — a prefix of the erring stack, the whole of it on an
/// arity error.
pub open spec fn err_state_rel(s: StateV, post: StateV, e: RtErrV) -> bool {
    &&& post.pending == s.pending.drop_first()
    &&& post.definitions == s.definitions
    &&& post.output == s.output
    &&& post.stack.len() <= s.stack.len()
    &&& post.stack =~= s.stack.take(post.stack.len() as int)
    &&& (e is Arity ==> post.stack == s.stack)
}

/// `b` follows from `a` by exactly `n` successful steps.
pub open spec fn steps_to(a: StateV, b: StateV, n: nat) -> bool
    decreases n,
{
    if n == 0 {
        a == b
    } else {
        a.pending.len() > 0 && step1(a) is Ok && steps_to(step1(a)->Ok_0, b, (n - 1) as nat)
    }
}

/// Extending a step chain by one more successful step.
pub proof fn lemma_steps_to_snoc(a: StateV, b: StateV, n: nat, c: StateV)
    requires
        steps_to(a, b, n),
        b.pending.len() > 0,
        step1(b) is Ok,
        c == step1(b)->Ok_0,
    ensures
        steps_to(a, c, n + 1),
    decreases n,
{
    if n == 0 {
        assert(a == b);
        assert(steps_to(step1(a)->Ok_0, c, 0));
        assert(steps_to(a, c, 1));
    } else {
        lemma_steps_to_snoc(step1(a)->Ok_0, b, (n - 1) as nat, c);
        assert(steps_to(step1(a)->Ok_0, c, ((n + 1) - 1) as nat));
        assert(steps_to(a, c, n + 1));
    }
}

/// Splitting a step chain: the longer chain continues from where the
/// shorter one stops.
pub proof fn lemma_steps_to_split(a: StateV, b: StateV, n: nat, c: StateV, m: nat)
    requires
        steps_to(a, b, n),
        steps_to(a, c, m),
        n <= m,
    ensures
        steps_to(b, c, (m - n) as nat),
    decreases n,
{
    if n > 0 {
        lemma_steps_to_split(step1(a)->Ok_0, b, (n - 1) as nat, c, (m - 1) as nat);
    }
}

/// A drained state is final: stepping is deterministic, so every chain from
/// the same start that runs at least as long ends in the same state, after
/// exactly as many steps.
pub proof fn lemma_steps_to_halted(a: StateV, b: StateV, n: nat, c: StateV, m: nat)
    requires
        steps_to(a, b, n),
        b.pending.len() == 0,
        steps_to(a, c, m),
        n <= m,
    ensures
        c == b,
        m == n,
{
    lemma_steps_to_split(a, b, n, c, m);
}

/// Two chains from one start that both drain agree: same final state, same
/// length.
pub proof fn lemma_drained_unique(a: StateV, b: StateV, n: nat, c: StateV, m: nat)
    requires
        steps_to(a, b, n),
        b.pending.len() == 0,
        steps_to(a, c, m),
        c.pending.len() == 0,
    ensures
        b == c,
        n == m,
{
    if n <= m {
        lemma_steps_to_halted(a, b, n, c, m);
    } else {
        lemma_steps_to_halted(a, c, m, b, n);
    }
}

/// A run that drains leaves no room for an error: along any chain from the
/// same start, every state with work left steps successfully.
pub proof fn lemma_steps_to_no_error(a: StateV, b: StateV, n: nat, s: StateV, m: nat)
    requires
        steps_to(a, b, n),
        b.pending.len() == 0,
        steps_to(a, s, m),
        s.pending.len() > 0,
    ensures
        step1(s) is Ok,
{
    if m >= n {
        lemma_steps_to_split(a, b, n, s, m);
    } else {
        lemma_steps_to_split(a, s, m, b, n);
    }
}

impl Interpreter {
    /// `+`: pop two numbers, push their wrapping sum.
    fn add(&mut self) -> (r: Result<(), RuntimeError>)
        ensures
            stmt_rel(StatementV::Builtin(Builtin::Add), old(self)@, final(self)@, r),
    {
        self.expect_args(2, Builtin::Add.to_str())?;
        let b = self.pop()?;
        let a = self.pop()?;
        proof {
            assert(old(self)@.stack.drop_last().drop_last() =~= old(self)@.stack.take(
                old(self)@.stack.len() - 2,
            ));
        }
        match a.add(b) {
            Ok(v) => {
                self.push(v)?;
                Ok(())
            },
            Err(e) => Err(e),
        }
    }

    /// `-`: pop two numbers, push their wrapping difference.
    fn sub(&mut self) -> (r: Result<(), RuntimeError>)
        ensures
            stmt_rel(StatementV::Builtin(Builtin::Sub), old(self)@, final(self)@, r),
    {
        self.expect_args(2, Builtin::Sub.to_str())?;
        let b = self.pop()?;
        let a = self.pop()?;
        proof {
            assert(old(self)@.stack.drop_last().drop_last() =~= old(self)@.stack.take(
                old(self)@.stack.len() - 2,
            ));
        }
        match a.sub(b) {
            Ok(v) => {
                self.push(v)?;
                Ok(())
            },
            Err(e) => Err(e),
        }
    }

    /// `*`: pop two numbers, push their wrapping product.
    fn mul(&mut self) -> (r: Result<(), RuntimeError>)
        ensures
            stmt_rel(StatementV::Builtin(Builtin::Mul), old(self)@, final(self)@, r),
    {
        self.expect_args(2, Builtin::Mul.to_str())?;
        let b = self.pop()?;
        let a = self.pop()?;
        proof {
            assert(old(self)@.stack.drop_last().drop_last() =~= old(self)@.stack.take(
                old(self)@.stack.len() - 2,
            ));
        }
        match a.mul(b) {
            Ok(v) => {
                self.push(v)?;
                Ok(())
            },
            Err(e) => Err(e),
        }
    }

    /// `/`: pop two numbers, push their truncated quotient.
    fn div(&mut self) -> (r: Result<(), RuntimeError>)
        ensures
            stmt_rel(StatementV::Builtin(Builtin::Div), old(self)@, final(self)@, r),
    {
        self.expect_args(2, Builtin::Div.to_str())?;
        let b = self.pop()?;
        let a = self.pop()?;
        proof {
            assert(old(self)@.stack.drop_last().drop_last() =~= old(self)@.stack.take(
                old(self)@.stack.len() - 2,
            ));
        }
        match a.div(b) {
            Ok(v) => {
                self.push(v)?;
                Ok(())
            },
            Err(e) => Err(e),
        }
    }

    /// `=`: pop two values, push their structural equality.
    fn eq(&mut self) -> (r: Result<(), RuntimeError>)
        ensures
            stmt_rel(StatementV::Builtin(Builtin::Eq), old(self)@, final(self)@, r),
    {
        self.expect_args(2, Builtin::Eq.to_str())?;
        let b = self.pop()?;
        let a = self.pop()?;
        proof {
            assert(old(self)@.stack.drop_last().drop_last() =~= old(self)@.stack.take(
                old(self)@.stack.len() - 2,
            ));
        }
        let s = crate::value::value_eq(&a, &b);
        self.push(Value::Bool(s))?;
        Ok(())
    }

    /// `!`: pop a boolean, push its negation.
    fn neg(&mut self) -> (r: Result<(), RuntimeError>)
        ensures
            stmt_rel(StatementV::Builtin(Builtin::Neg), old(self)@, final(self)@, r),
    {
        self.expect_args(1, Builtin::Neg.to_str())?;
        let a = self.pop()?;
        proof {
            assert(old(self)@.stack.drop_last() =~= old(self)@.stack.take(
                old(self)@.stack.len() - 1,
            ));
        }
        match a.not() {
            Ok(v) => {
                self.push(v)?;
                Ok(())
            },
            Err(e) => Err(e),
        }
    }

    /// `<`: pop two values, push whether the lower one orders strictly
    /// before the top one.
    fn lt(&mut self) -> (r: Result<(), RuntimeError>)
        ensures
            stmt_rel(StatementV::Builtin(Builtin::Lt), old(self)@, final(self)@, r),
    {
        self.expect_args(2, Builtin::Lt.to_str())?;
        let b = self.pop()?;
        let a = self.pop()?;
        proof {
            assert(old(self)@.stack.drop_last().drop_last() =~= old(self)@.stack.take(
                old(self)@.stack.len() - 2,
            ));
        }
        let o = crate::value::value_cmp(&a, &b);
        self.push(Value::Bool(o == Order::Less))?;
        Ok(())
    }

    /// `<=`: pop two values, push whether the lower one orders no later than
    /// the top one.
    fn le(&mut self) -> (r: Result<(), RuntimeError>)
        ensures
            stmt_rel(StatementV::Builtin(Builtin::Le), old(self)@, final(self)@, r),
    {
        self.expect_args(2, Builtin::Le.to_str())?;
        let b = self.pop()?;
        let a = self.pop()?;
        proof {
            assert(old(self)@.stack.drop_last().drop_last() =~= old(self)@.stack.take(
                old(self)@.stack.len() - 2,
            ));
        }
        let o = crate::value::value_cmp(&a, &b);
        self.push(Value::Bool(o != Order::Greater))?;
        Ok(())
    }

    /// `>`: pop two values, push whether the lower one orders strictly after
    /// the top one.
    fn gt(&mut self) -> (r: Result<(), RuntimeError>)
        ensures
            stmt_rel(StatementV::Builtin(Builtin::Gt), old(self)@, final(self)@, r),
    {
        self.expect_args(2, Builtin::Gt.to_str())?;
        let b = self.pop()?;
        let a = self.pop()?;
        proof {
            assert(old(self)@.stack.drop_last().drop_last() =~= old(self)@.stack.take(
                old(self)@.stack.len() - 2,
            ));
        }
        let o = crate::value::value_cmp(&a, &b);
        self.push(Value::Bool(o == Order::Greater))?;
        Ok(())
    }

    /// `>=`: pop two values, push whether the lower one orders no earlier
    /// than the top one.
    fn ge(&mut self) -> (r: Result<(), RuntimeError>)
        ensures
            stmt_rel(StatementV::Builtin(Builtin::Ge), old(self)@, final(self)@, r),
    {
        self.expect_args(2, Builtin::Ge.to_str())?;
        let b = self.pop()?;
        let a = self.pop()?;
        proof {
            assert(old(self)@.stack.drop_last().drop_last() =~= old(self)@.stack.take(
                old(self)@.stack.len() - 2,
            ));
        }
        let o = crate::value::value_cmp(&a, &b);
        self.push(Value::Bool(o != Order::Less))?;
        Ok(())
    }

    /// `dup`: push a copy of the top value.
    fn dup(&mut self) -> (r: Result<(), RuntimeError>)
        ensures
            stmt_rel(StatementV::Builtin(Builtin::Dup), old(self)@, final(self)@, r),
    {
        self.expect_args(1, Builtin::Dup.to_str())?;
        proof {
            lemma_values_view(self.stack@);
        }
        let i = self.stack.len() - 1;
        let c = self.stack[i].deep_clone();
        self.push(c)?;
        Ok(())
    }

    /// `2dup`: push copies of the top two values, preserving their order.
    fn dup2(&mut self) -> (r: Result<(), RuntimeError>)
        ensures
            stmt_rel(StatementV::Builtin(Builtin::Dup2), old(self)@, final(self)@, r),
    {
        self.expect_args(2, Builtin::Dup2.to_str())?;
        proof {
            lemma_values_view(self.stack@);
        }
        let n = self.stack.len();
        let c1 = self.stack[n - 2].deep_clone();
        let c2 = self.stack[n - 1].deep_clone();
        self.push(c1)?;
        self.push(c2)?;
        Ok(())
    }

    /// `swap`: exchange the top two values.
    fn swap(&mut self) -> (r: Result<(), RuntimeError>)
        ensures
            stmt_rel(StatementV::Builtin(Builtin::Swap), old(self)@, final(self)@, r),
    {
        self.expect_args(2, Builtin::Swap.to_str())?;
        let b = self.pop()?;
        let a = self.pop()?;
        proof {
            assert(old(self)@.stack.drop_last().drop_last() =~= old(self)@.stack.take(
                old(self)@.stack.len() - 2,
            ));
        }
        self.push(b)?;
        self.push(a)?;
        Ok(())
    }

    /// `drop`: discard the top value.
    fn drop_top(&mut self) -> (r: Result<(), RuntimeError>)
        ensures
            stmt_rel(StatementV::Builtin(Builtin::Drop), old(self)@, final(self)@, r),
    {
        self.expect_args(1, Builtin::Drop.to_str())?;
        let _ = self.pop()?;
        proof {
            assert(old(self)@.stack.drop_last() =~= old(self)@.stack.take(
                old(self)@.stack.len() - 1,
            ));
        }
        Ok(())
    }

    /// `2drop`: discard the top two values.
    fn drop2(&mut self) -> (r: Result<(), RuntimeError>)
        ensures
            stmt_rel(StatementV::Builtin(Builtin::Drop2), old(self)@, final(self)@, r),
    {
        self.expect_args(2, Builtin::Drop2.to_str())?;
        let _ = self.pop()?;
        let _ = self.pop()?;
        proof {
            assert(old(self)@.stack.drop_last().drop_last() =~= old(self)@.stack.take(
                old(self)@.stack.len() - 2,
            ));
        }
        Ok(())
    }

    /// `3drop`: discard the top three values.
    fn drop3(&mut self) -> (r: Result<(), RuntimeError>)
        ensures
            stmt_rel(StatementV::Builtin(Builtin::Drop3), old(self)@, final(self)@, r),
    {
        self.expect_args(3, Builtin::Drop3.to_str())?;
        let _ = self.pop()?;
        let _ = self.pop()?;
        let _ = self.pop()?;
        proof {
            assert(old(self)@.stack.drop_last().drop_last().drop_last() =~= old(self)@.stack.take(
                old(self)@.stack.len() - 3,
            ));
        }
        Ok(())
    }

    /// `over`: push a copy of the value under the top.
    fn over(&mut self) -> (r: Result<(), RuntimeError>)
        ensures
            stmt_rel(StatementV::Builtin(Builtin::Over), old(self)@, final(self)@, r),
    {
        self.expect_args(2, Builtin::Over.to_str())?;
        proof {
            lemma_values_view(self.stack@);
        }
        let n = self.stack.len();
        let c = self.stack[n - 2].deep_clone();
        self.push(c)?;
        Ok(())
    }

    /// `dupd`: duplicate the value under the top, in place.
    fn dupd(&mut self) -> (r: Result<(), RuntimeError>)
        ensures
            stmt_rel(StatementV::Builtin(Builtin::Dupd), old(self)@, final(self)@, r),
    {
        self.expect_args(2, Builtin::Dupd.to_str())?;
        let b = self.pop()?;
        let a = self.pop()?;
        proof {
            assert(old(self)@.stack.drop_last().drop_last() =~= old(self)@.stack.take(
                old(self)@.stack.len() - 2,
            ));
        }
        let c = a.deep_clone();
        self.push(a)?;
        self.push(c)?;
        self.push(b)?;
        Ok(())
    }

    /// `rotl`: rotate the top three values left.
    fn rotl(&mut self) -> (r: Result<(), RuntimeError>)
        ensures
            stmt_rel(StatementV::Builtin(Builtin::Rotl), old(self)@, final(self)@, r),
    {
        self.expect_args(3, Builtin::Rotl.to_str())?;
        let v3 = self.pop()?;
        let v2 = self.pop()?;
        let v1 = self.pop()?;
        proof {
            assert(old(self)@.stack.drop_last().drop_last().drop_last() =~= old(self)@.stack.take(
                old(self)@.stack.len() - 3,
            ));
        }
        self.push(v2)?;
        self.push(v3)?;
        self.push(v1)?;
        Ok(())
    }

    /// `rotr`: rotate the top three values right.
    fn rotr(&mut self) -> (r: Result<(), RuntimeError>)
        ensures
            stmt_rel(StatementV::Builtin(Builtin::Rotr), old(self)@, final(self)@, r),
    {
        self.expect_args(3, Builtin::Rotr.to_str())?;
        let v3 = self.pop()?;
        let v2 = self.pop()?;
        let v1 = self.pop()?;
        proof {
            assert(old(self)@.stack.drop_last().drop_last().drop_last() =~= old(self)@.stack.take(
                old(self)@.stack.len() - 3,
            ));
        }
        self.push(v3)?;
        self.push(v1)?;
        self.push(v2)?;
        Ok(())
    }
}

impl Interpreter {
    /// `keep`: pop a quotation, splice its body, and queue the value under
    /// it to be restored beneath the quotation's result.
    fn keep(&mut self) -> (r: Result<(), RuntimeError>)
        ensures
            stmt_rel(StatementV::Builtin(Builtin::Keep), old(self)@, final(self)@, r),
    {
        self.expect_args(2, Builtin::Keep.to_str())?;
        let b = self.pop()?;
        proof {
            assert(old(self)@.stack.drop_last() =~= old(self)@.stack.take(
                old(self)@.stack.len() - 1,
            ));
            lemma_values_view(self.stack@);
        }
        match b {
            Value::Procedure(p) => {
                let i = self.stack.len() - 1;
                let ac = self.stack[i].deep_clone();
                proof {
                    lemma_values_view(self.stack@);
                    assert(values_view(self.stack@) == old(self)@.stack.drop_last());
                    assert(value_view(self.stack@[i as int]) == values_view(self.stack@)[i as int]);
                    assert(ac@ == old(self)@.stack[old(self)@.stack.len() - 2]);
                }
                let ghost qcur = self.statements@;
                self.statements.push_front(Statement::Value(ac));
                proof {
                    assert(self.statements@ == seq![Statement::Value(ac)] + qcur);
                    lemma_stmts_view_concat(seq![Statement::Value(ac)], qcur);
                    assert(seq![Statement::Value(ac)].drop_first() =~= Seq::<Statement>::empty());
                    assert(stmts_view(Seq::<Statement>::empty()) =~= Seq::<StatementV>::empty());
                    assert(stmts_view(seq![Statement::Value(ac)]) =~= seq![stmt_view(
                        Statement::Value(ac),
                    )]);
                    assert(stmts_view(self.statements@) =~= seq![StatementV::Value(ac@)]
                        + old(self)@.pending);
                }
                self.prepend_statements(p.0)?;
                proof {
                    assert(final(self)@.pending =~= old(self)@.stack.last()->Procedure_0 + seq![
                        StatementV::Value(old(self)@.stack[old(self)@.stack.len() - 2]),
                    ] + old(self)@.pending);
                    assert(final(self)@ =~= step_stmt(
                        StatementV::Builtin(Builtin::Keep),
                        old(self)@,
                    )->Ok_0);
                }
                Ok(())
            },
            b => Err(type_mismatch1(Builtin::Keep, b)),
        }
    }

    /// `eval`: pop a quotation and splice its body onto the front of the
    /// pending queue; a non-procedure is a type mismatch.
    fn eval(&mut self) -> (r: Result<(), RuntimeError>)
        ensures
            stmt_rel(StatementV::Builtin(Builtin::Eval), old(self)@, final(self)@, r),
    {
        self.expect_args(1, Builtin::Eval.to_str())?;
        let v = self.pop()?;
        proof {
            assert(old(self)@.stack.drop_last() =~= old(self)@.stack.take(
                old(self)@.stack.len() - 1,
            ));
        }
        match v {
            Value::Procedure(p) => {
                self.prepend_statements(p.0)?;
                proof {
                    assert(final(self)@ =~= step_stmt(
                        StatementV::Builtin(Builtin::Eval),
                        old(self)@,
                    )->Ok_0);
                }
                Ok(())
            },
            v => Err(type_mismatch1(Builtin::Eval, v)),
        }
    }

    /// `println`: pop a value and append its printed line to the output; a
    /// text value prints unquoted, everything else in its display form.
    fn println(&mut self) -> (r: Result<(), RuntimeError>)
        ensures
            stmt_rel(StatementV::Builtin(Builtin::Println), old(self)@, final(self)@, r),
    {
        self.expect_args(1, Builtin::Println.to_str())?;
        let v = self.pop()?;
        proof {
            assert(old(self)@.stack.drop_last() =~= old(self)@.stack.take(
                old(self)@.stack.len() - 1,
            ));
        }
        let ghost pre_out = self.output@;
        match v {
            Value::String(s) => {
                self.output.push(s);
            },
            v => {
                let t = v.to_text();
                self.output.push(t);
            },
        }
        proof {
            assert(outputs_view(self.output@) =~= outputs_view(pre_out).push(
                self.output@.last()@,
            ));
            assert(final(self)@ =~= step_stmt(
                StatementV::Builtin(Builtin::Println),
                old(self)@,
            )->Ok_0);
        }
        Ok(())
    }

    /// `if`: pop an else-quotation, a then-quotation and a condition; splice
    /// the then-body when the condition is the boolean true, else the
    /// else-body; a selected non-procedure is a type mismatch.
    fn evaluate_if(&mut self) -> (r: Result<(), RuntimeError>)
        ensures
            stmt_rel(StatementV::Builtin(Builtin::If), old(self)@, final(self)@, r),
    {
        self.expect_args(3, Builtin::If.to_str())?;
        let v3 = self.pop()?;
        let v2 = self.pop()?;
        let v1 = self.pop()?;
        proof {
            assert(old(self)@.stack.drop_last().drop_last().drop_last() =~= old(self)@.stack.take(
                old(self)@.stack.len() - 3,
            ));
        }
        let take_then = match &v1 {
            Value::Bool(b) => *b,
            _ => false,
        };
        let chosen = if take_then {
            v2
        } else {
            v3
        };
        match chosen {
            Value::Procedure(p) => {
                self.prepend_statements(p.0)?;
                proof {
                    assert(final(self)@ =~= step_stmt(
                        StatementV::Builtin(Builtin::If),
                        old(self)@,
                    )->Ok_0);
                }
                Ok(())
            },
            chosen => Err(type_mismatch1(Builtin::If, chosen)),
        }
    }

    /// `nth`: pop a list and an index and push a copy of the indexed
    /// element; a non-number index or non-list is a type mismatch, an index
    /// outside the list an index error.
    fn nth(&mut self) -> (r: Result<(), RuntimeError>)
        ensures
            stmt_rel(StatementV::Builtin(Builtin::Nth), old(self)@, final(self)@, r),
    {
        self.expect_args(2, Builtin::Nth.to_str())?;
        let b = self.pop()?;
        let a = self.pop()?;
        proof {
            assert(old(self)@.stack.drop_last().drop_last() =~= old(self)@.stack.take(
                old(self)@.stack.len() - 2,
            ));
        }
        match (a, b) {
            (Value::Number(i), Value::List(vs)) => {
                if i < 0 {
                    proof {
                        lemma_values_view(vs@);
                    }
                    Err(RuntimeError::IndexOutOfRange { index: i, length: vs.len() })
                } else if (i as u64) >= (vs.len() as u64) {
                    proof {
                        lemma_values_view(vs@);
                    }
                    Err(RuntimeError::IndexOutOfRange { index: i, length: vs.len() })
                } else {
                    proof {
                        lemma_values_view(vs@);
                    }
                    let c = vs[i as usize].deep_clone();
                    self.push(c)?;
                    Ok(())
                }
            },
            (a, b) => Err(type_mismatch2(Builtin::Nth, b, a)),
        }
    }

    /// Dispatches one builtin.
    fn evaluate_builtin(&mut self, builtin: Builtin) -> (r: Result<(), RuntimeError>)
        ensures
            stmt_rel(StatementV::Builtin(builtin), old(self)@, final(self)@, r),
    {
        match builtin {
            Builtin::Add => self.add(),
            Builtin::Sub => self.sub(),
            Builtin::Mul => self.mul(),
            Builtin::Div => self.div(),
            Builtin::Eq => self.eq(),
            Builtin::Neg => self.neg(),
            Builtin::Lt => self.lt(),
            Builtin::Le => self.le(),
            Builtin::Gt => self.gt(),
            Builtin::Ge => self.ge(),
            Builtin::Dup => self.dup(),
            Builtin::Dup2 => self.dup2(),
            Builtin::Swap => self.swap(),
            Builtin::Drop => self.drop_top(),
            Builtin::Drop2 => self.drop2(),
            Builtin::Drop3 => self.drop3(),
            Builtin::Over => self.over(),
            Builtin::Dupd => self.dupd(),
            Builtin::Rotl => self.rotl(),
            Builtin::Rotr => self.rotr(),
            Builtin::Keep => self.keep(),
            Builtin::Eval => self.eval(),
            Builtin::Println => self.println(),
            Builtin::If => self.evaluate_if(),
            Builtin::Nth => self.nth(),
        }
    }

    /// The value an expression evaluates to.
    fn evaluate_expression(&self, expression: Expression) -> (r: Result<Value, RuntimeError>)
        ensures
            r is Ok && r->Ok_0@ == value_of_expr(expression@),
    {
        Ok(Value::of_expression(&expression))
    }

    /// Resolves a word and splices its bound body onto the front of the
    /// pending queue; an unbound word is an unresolved-identifier error.
    fn word(&mut self, word: &str) -> (r: Result<(), RuntimeError>)
        ensures
            stmt_rel(StatementV::Word(word@), old(self)@, final(self)@, r),
    {
        let body: Vec<Statement>;
        match self.resolve(word) {
            Ok(p) => {
                body = crate::value::clone_stmts(&p.0);
            },
            Err(e) => {
                return Err(e);
            },
        }
        self.prepend_statements(body)?;
        proof {
            assert(final(self)@ =~= step_stmt(StatementV::Word(word@), old(self)@)->Ok_0);
        }
        Ok(())
    }

    /// Executes one statement against the engine state.
    fn statement(&mut self, statement: Statement) -> (r: Result<(), RuntimeError>)
        ensures
            stmt_rel(statement@, old(self)@, final(self)@, r),
    {
        match statement {
            Statement::Expression(e) => {
                let v = self.evaluate_expression(e)?;
                self.push(v)
            },
            Statement::Builtin(b) => self.evaluate_builtin(b),
            Statement::Value(v) => self.push(v),
            Statement::Definition { identifier, procedure } => self.def(identifier, procedure),
            Statement::Word(w) => self.word(w.as_str()),
        }
    }

    /// Executes the front pending statement, if any. Returns whether a
    /// statement was executed; the statement about to execute can be
    /// observed through the public fields before the call.
    pub fn step(&mut self) -> (r: Result<bool, RuntimeError>)
        ensures
            ({
                let pre = old(self)@;
                if pre.pending.len() == 0 {
                    r is Ok && r->Ok_0 == false && final(self)@ == old(self)@
                } else {
                    match step1(pre) {
                        Ok(st) => r is Ok && r->Ok_0 == true && final(self)@ == st,
                        Err(e) => r is Err && r->Err_0@ == e && err_state_rel(
                            pre,
                            final(self)@,
                            e,
                        ),
                    }
                }
            }),
    {
        proof {
            lemma_stmts_view(self.statements@);
        }
        match self.statements.pop_front() {
            None => {
                proof {
                    assert(self@ =~= old(self)@);
                }
                Ok(false)
            },
            Some(st) => {
                proof {
                    lemma_stmts_view(old(self).statements@);
                    lemma_stmts_view(self.statements@);
                    assert(stmts_view(self.statements@) =~= stmts_view(
                        old(self).statements@,
                    ).drop_first());
                    assert(stmt_view(st) == old(self)@.pending[0]);
                    assert(self@ =~= (StateV {
                        pending: old(self)@.pending.drop_first(),
                        ..old(self)@
                    }));
                }
                match self.statement(st) {
                    Ok(()) => Ok(true),
                    Err(e) => Err(e),
                }
            },
        }
    }

    /// Drains the pending queue, one statement at a time, for at most `fuel`
    /// steps. Returns whether the queue is empty; when the budget runs out
    /// first, exactly `fuel` statements were executed. Execution stops at
    /// the first error, whose effects up to the failing statement remain.
    pub fn run_statements(&mut self, fuel: u64) -> (r: Result<bool, RuntimeError>)
        ensures
            match r {
                Ok(done) => (exists|n: nat| steps_to(old(self)@, final(self)@, n)) && (done
                    <==> final(self)@.pending.len() == 0) && (!done ==> steps_to(
                    old(self)@,
                    final(self)@,
                    fuel as nat,
                )),
                Err(e) => exists|n: nat, s: StateV|
                    #[trigger] steps_to(old(self)@, s, n) && s.pending.len() > 0 && step1(s)
                        == Err::<StateV, RtErrV>(e@) && err_state_rel(s, final(self)@, e@),
            },
    {
        let mut left = fuel;
        let ghost mut n: nat = 0nat;
        proof {
            assert(steps_to(old(self)@, self@, n));
        }
        loop
            invariant
                steps_to(old(self)@, self@, n),
                n + left == fuel as nat,
            decreases left,
        {
            if self.statements.len() == 0 {
                return Ok(true);
            }
            if left == 0 {
                proof {
                    lemma_stmts_view(self.statements@);
                }
                return Ok(false);
            }
            left = left - 1;
            let ghost pre = self@;
            proof {
                lemma_stmts_view(self.statements@);
            }
            match self.step() {
                Ok(_) => {
                    proof {
                        lemma_steps_to_snoc(old(self)@, pre, n, self@);
                        n = n + 1nat;
                    }
                },
                Err(e) => {
                    return Err(e);
                },
            }
        }
    }

    /// Appends a program's statements to the back of the pending queue and
    /// drains the queue. On success the result is the final top-of-stack
    /// value, or nothing when the stack ends empty; the first error stops
    /// execution and is returned. The stack, environment and output persist
    /// on the engine across calls. The drain carries an enormous step budget
    /// so that it provably returns; a program still running after that many
    /// steps stops with the budget error, its queue preserved.
    pub fn run_program(&mut self, program: Program) -> (r: Result<Option<Value>, RuntimeError>)
        ensures
            ({
                let start = StateV {
                    stack: old(self)@.stack,
                    pending: old(self)@.pending + program@,
                    definitions: old(self)@.definitions,
                    output: old(self)@.output,
                };
                match r {
                    Ok(top) => (exists|n: nat| steps_to(start, final(self)@, n))
                        && final(self)@.pending.len() == 0 && (match top {
                        Some(v) => final(self)@.stack.len() > 0 && v@ == final(self)@.stack.last(),
                        None => final(self)@.stack.len() == 0,
                    }),
                    Err(e) => if e@ is StepLimit {
                        steps_to(start, final(self)@, u64::MAX as nat)
                            && final(self)@.pending.len() > 0
                    } else {
                        exists|n: nat, s: StateV|
                            #[trigger] steps_to(start, s, n) && s.pending.len() > 0 && step1(s)
                                == Err::<StateV, RtErrV>(e@) && err_state_rel(s, final(self)@, e@)
                    },
                }
            }),
    {
        let ghost whole = program.statements@;
        let ghost orig_q = self.statements@;
        let ghost start = StateV {
            stack: old(self)@.stack,
            pending: old(self)@.pending + stmts_view(whole),
            definitions: old(self)@.definitions,
            output: old(self)@.output,
        };
        proof {
            assert(whole.subrange(0, whole.len() as int) =~= whole);
            assert(whole.subrange(0, 0) =~= Seq::<Statement>::empty());
            assert(orig_q + whole.subrange(0, 0) =~= orig_q);
        }
        let mut v = program.statements;
        while v.len() > 0
            invariant
                v@.len() <= whole.len(),
                v@ == whole.subrange((whole.len() - v@.len()) as int, whole.len() as int),
                self.statements@ == orig_q + whole.subrange(0, (whole.len() - v@.len()) as int),
                self.stack == old(self).stack,
                self.definitions == old(self).definitions,
                self.output == old(self).output,
            decreases v.len(),
        {
            let ghost k = (whole.len() - v@.len()) as int;
            let s = v.remove(0);
            self.statements.push_back(s);
            proof {
                assert(v@ =~= whole.subrange(k + 1, whole.len() as int));
                assert(whole.subrange(0, k + 1) =~= whole.subrange(0, k).push(whole[k]));
                assert(self.statements@ =~= orig_q + whole.subrange(0, k + 1));
            }
        }
        proof {
            assert(self.statements@ =~= orig_q + whole);
            lemma_stmts_view_concat(orig_q, whole);
            assert(self@ =~= start);
        }
        let res = self.run_statements(u64::MAX);
        match res {
            Ok(true) => {
                proof {
                    lemma_values_view(self.stack@);
                }
                if self.stack.len() == 0 {
                    Ok(None)
                } else {
                    let i = self.stack.len() - 1;
                    let c = self.stack[i].deep_clone();
                    Ok(Some(c))
                }
            },
            Ok(false) => Err(RuntimeError::StepLimit),
            Err(e) => {
                proof {
                    let (n, st) = choose|n: nat, st: StateV|
                        #[trigger] steps_to(start, st, n) && st.pending.len() > 0 && step1(st)
                            == Err::<StateV, RtErrV>(e@);
                    lemma_step1_err_kind(st);
                }
                Err(e)
            },
        }
    }
}

/// A step never reports the budget error: the budget is the drain loop's
/// own, not a statement's.
pub proof fn lemma_step1_err_kind(s: StateV)
    ensures
        step1(s) is Err ==> !(step1(s)->Err_0 is StepLimit),
{
    if s.pending.len() > 0 {
        let st = StateV { pending: s.pending.drop_first(), ..s };
        match s.pending[0] {
            StatementV::Builtin(b) => {
                let n = st.stack.len() as int;
                if n >= builtin_arity(b) {
                    match b {
                        Builtin::Add => {
                            assert(match add_values(st.stack[n - 2], st.stack[n - 1]) {
                                Err(e) => e is TypeMismatch,
                                Ok(_) => true,
                            });
                        },
                        Builtin::Sub => {
                            assert(match sub_values(st.stack[n - 2], st.stack[n - 1]) {
                                Err(e) => e is TypeMismatch,
                                Ok(_) => true,
                            });
                        },
                        Builtin::Mul => {
                            assert(match mul_values(st.stack[n - 2], st.stack[n - 1]) {
                                Err(e) => e is TypeMismatch,
                                Ok(_) => true,
                            });
                        },
                        Builtin::Div => {
                            assert(match div_values(st.stack[n - 2], st.stack[n - 1]) {
                                Err(e) => e is TypeMismatch,
                                Ok(_) => true,
                            });
                        },
                        Builtin::Neg => {
                            assert(match not_value(st.stack[n - 1]) {
                                Err(e) => e is TypeMismatch,
                                Ok(_) => true,
                            });
                        },
                        _ => {
                            assert(match apply_builtin(b, st) {
                                Err(e) => !(e is StepLimit),
                                Ok(_) => true,
                            });
                        },
                    }
                }
            },
            _ => {},
        }
    }
}

} // verus!
