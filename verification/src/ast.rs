//! The abstract syntax tree: programs, statements, expressions, literals and
//! the fixed set of builtin operations.
use vstd::prelude::*;
use crate::value::Value;

verus! {

/// A whole parsed program: an ordered sequence of statements.
#[derive(Debug, PartialEq)]
pub struct Program {
    pub statements: Vec<Statement>,
}

/// One executable unit.
#[derive(Debug, PartialEq)]
pub enum Statement {
    /// A literal, quotation or list literal, evaluated to a value and pushed.
    Expression(Expression),
    /// A primitive operation.
    Builtin(Builtin),
    /// An already-evaluated value; produced only at runtime by splicing.
    Value(Value),
    /// Binds a word to a procedure body at the point of execution.
    Definition { identifier: String, procedure: Procedure },
    /// A bare identifier, resolved against the environment when executed.
    Word(String),
}

/// A literal, quotation or list literal.
#[derive(Debug, PartialEq)]
pub enum Expression {
    Literal(Literal),
    Procedure(Procedure),
    List(Vec<Expression>),
}

/// A quotation: a deferred, first-class block of statements.
#[derive(Debug, PartialEq)]
pub struct Procedure(pub Vec<Statement>);

/// A literal token.
#[derive(Debug, PartialEq)]
pub enum Literal {
    Bool(bool),
    Number(i64),
    String(String),
}

/// The primitive operations, each named by a unique surface token.
#[derive(Debug, Clone, Copy, PartialEq, Eq, Structural)]
pub enum Builtin {
    /// Add the top two elements on the stack.
    Add,
    /// Subtract the top element from the second element on the stack.
    Sub,
    /// Multiply the top two elements on the stack.
    Mul,
    /// Divide the second element by the top element on the stack.
    Div,
    /// Check if the top two elements are equal.
    Eq,
    /// Pops the top element on the stack and pushes its inverse.
    Neg,
    /// `a b -- a < b`
    Lt,
    /// `a b -- a <= b`
    Le,
    /// `a b -- a > b`
    Gt,
    /// `a b -- a >= b`
    Ge,
    /// Duplicate the top element on the stack.
    Dup,
    /// Duplicate the top two elements, preserving their order.
    Dup2,
    /// Swap the top two elements on the stack.
    Swap,
    /// Drop (or "pop") the top element on the stack.
    Drop,
    /// Drop the top two elements on the stack.
    Drop2,
    /// Drop the top three elements on the stack.
    Drop3,
    /// `x y -- x y x`
    Over,
    /// `x y -- x x y`
    Dupd,
    /// Rotate the top three elements left: `a b c -- b c a`
    Rotl,
    /// Rotate the top three elements right: `a b c -- c a b`
    Rotr,
    /// Evaluate a procedure and restore the top element on the stack.
    Keep,
    /// Evaluate the top element on the stack.
    Eval,
    /// Print the top element on the stack and append a newline.
    Println,
    /// Evaluate the second to top item on the stack if the third is true,
    /// else the top item.
    If,
    /// Extract the nth item from a list.
    /// ( n list -- item )
    Nth,
}

/// The surface token that names a builtin.
pub open spec fn builtin_token(b: Builtin) -> Seq<char> {
    match b {
        Builtin::Add => seq!['+'],
        Builtin::Sub => seq!['-'],
        Builtin::Mul => seq!['*'],
        Builtin::Div => seq!['/'],
        Builtin::Eq => seq!['='],
        Builtin::Neg => seq!['!'],
        Builtin::Lt => seq!['<'],
        Builtin::Le => seq!['<', '='],
        Builtin::Gt => seq!['>'],
        Builtin::Ge => seq!['>', '='],
        Builtin::Dup => seq!['d', 'u', 'p'],
        Builtin::Dup2 => seq!['2', 'd', 'u', 'p'],
        Builtin::Swap => seq!['s', 'w', 'a', 'p'],
        Builtin::Drop => seq!['d', 'r', 'o', 'p'],
        Builtin::Drop2 => seq!['2', 'd', 'r', 'o', 'p'],
        Builtin::Drop3 => seq!['3', 'd', 'r', 'o', 'p'],
        Builtin::Over => seq!['o', 'v', 'e', 'r'],
        Builtin::Dupd => seq!['d', 'u', 'p', 'd'],
        Builtin::Rotl => seq!['r', 'o', 't', 'l'],
        Builtin::Rotr => seq!['r', 'o', 't', 'r'],
        Builtin::Keep => seq!['k', 'e', 'e', 'p'],
        Builtin::Eval => seq!['e', 'v', 'a', 'l'],
        Builtin::Println => seq!['p', 'r', 'i', 'n', 't', 'l', 'n'],
        Builtin::If => seq!['i', 'f'],
        Builtin::Nth => seq!['n', 't', 'h'],
    }
}

/// How many stack values a builtin consumes or inspects before acting.
pub open spec fn builtin_arity(b: Builtin) -> nat {
    match b {
        Builtin::Add => 2,
        Builtin::Sub => 2,
        Builtin::Mul => 2,
        Builtin::Div => 2,
        Builtin::Eq => 2,
        Builtin::Neg => 1,
        Builtin::Lt => 2,
        Builtin::Le => 2,
        Builtin::Gt => 2,
        Builtin::Ge => 2,
        Builtin::Dup => 1,
        Builtin::Dup2 => 2,
        Builtin::Swap => 2,
        Builtin::Drop => 1,
        Builtin::Drop2 => 2,
        Builtin::Drop3 => 3,
        Builtin::Over => 2,
        Builtin::Dupd => 2,
        Builtin::Rotl => 3,
        Builtin::Rotr => 3,
        Builtin::Keep => 2,
        Builtin::Eval => 1,
        Builtin::Println => 1,
        Builtin::If => 3,
        Builtin::Nth => 2,
    }
}

impl Builtin {
    /// The surface token that names this builtin.
    pub fn to_str(&self) -> (r: &str)
        ensures
            r@ == builtin_token(*self),
    {
        match self {
            Builtin::Add => {
                proof { reveal_strlit("+"); assert("+"@ =~= builtin_token(Builtin::Add)); }
                "+"
            },
            Builtin::Sub => {
                proof { reveal_strlit("-"); assert("-"@ =~= builtin_token(Builtin::Sub)); }
                "-"
            },
            Builtin::Mul => {
                proof { reveal_strlit("*"); assert("*"@ =~= builtin_token(Builtin::Mul)); }
                "*"
            },
            Builtin::Div => {
                proof { reveal_strlit("/"); assert("/"@ =~= builtin_token(Builtin::Div)); }
                "/"
            },
            Builtin::Eq => {
                proof { reveal_strlit("="); assert("="@ =~= builtin_token(Builtin::Eq)); }
                "="
            },
            Builtin::Neg => {
                proof { reveal_strlit("!"); assert("!"@ =~= builtin_token(Builtin::Neg)); }
                "!"
            },
            Builtin::Lt => {
                proof { reveal_strlit("<"); assert("<"@ =~= builtin_token(Builtin::Lt)); }
                "<"
            },
            Builtin::Le => {
                proof { reveal_strlit("<="); assert("<="@ =~= builtin_token(Builtin::Le)); }
                "<="
            },
            Builtin::Gt => {
                proof { reveal_strlit(">"); assert(">"@ =~= builtin_token(Builtin::Gt)); }
                ">"
            },
            Builtin::Ge => {
                proof { reveal_strlit(">="); assert(">="@ =~= builtin_token(Builtin::Ge)); }
                ">="
            },
            Builtin::Dup => {
                proof { reveal_strlit("dup"); assert("dup"@ =~= builtin_token(Builtin::Dup)); }
                "dup"
            },
            Builtin::Dup2 => {
                proof { reveal_strlit("2dup"); assert("2dup"@ =~= builtin_token(Builtin::Dup2)); }
                "2dup"
            },
            Builtin::Swap => {
                proof { reveal_strlit("swap"); assert("swap"@ =~= builtin_token(Builtin::Swap)); }
                "swap"
            },
            Builtin::Drop => {
                proof { reveal_strlit("drop"); assert("drop"@ =~= builtin_token(Builtin::Drop)); }
                "drop"
            },
            Builtin::Drop2 => {
                proof { reveal_strlit("2drop"); assert("2drop"@ =~= builtin_token(Builtin::Drop2)); }
                "2drop"
            },
            Builtin::Drop3 => {
                proof { reveal_strlit("3drop"); assert("3drop"@ =~= builtin_token(Builtin::Drop3)); }
                "3drop"
            },
            Builtin::Over => {
                proof { reveal_strlit("over"); assert("over"@ =~= builtin_token(Builtin::Over)); }
                "over"
            },
            Builtin::Dupd => {
                proof { reveal_strlit("dupd"); assert("dupd"@ =~= builtin_token(Builtin::Dupd)); }
                "dupd"
            },
            Builtin::Rotl => {
                proof { reveal_strlit("rotl"); assert("rotl"@ =~= builtin_token(Builtin::Rotl)); }
                "rotl"
            },
            Builtin::Rotr => {
                proof { reveal_strlit("rotr"); assert("rotr"@ =~= builtin_token(Builtin::Rotr)); }
                "rotr"
            },
            Builtin::Keep => {
                proof { reveal_strlit("keep"); assert("keep"@ =~= builtin_token(Builtin::Keep)); }
                "keep"
            },
            Builtin::Eval => {
                proof { reveal_strlit("eval"); assert("eval"@ =~= builtin_token(Builtin::Eval)); }
                "eval"
            },
            Builtin::Println => {
                proof {
                    reveal_strlit("println");
                    assert("println"@ =~= builtin_token(Builtin::Println));
                }
                "println"
            },
            Builtin::If => {
                proof { reveal_strlit("if"); assert("if"@ =~= builtin_token(Builtin::If)); }
                "if"
            },
            Builtin::Nth => {
                proof { reveal_strlit("nth"); assert("nth"@ =~= builtin_token(Builtin::Nth)); }
                "nth"
            },
        }
    }

    /// How many stack values this builtin requires.
    pub fn arity(&self) -> (r: usize)
        ensures
            r == builtin_arity(*self),
    {
        match self {
            Builtin::Add => 2,
            Builtin::Sub => 2,
            Builtin::Mul => 2,
            Builtin::Div => 2,
            Builtin::Eq => 2,
            Builtin::Neg => 1,
            Builtin::Lt => 2,
            Builtin::Le => 2,
            Builtin::Gt => 2,
            Builtin::Ge => 2,
            Builtin::Dup => 1,
            Builtin::Dup2 => 2,
            Builtin::Swap => 2,
            Builtin::Drop => 1,
            Builtin::Drop2 => 2,
            Builtin::Drop3 => 3,
            Builtin::Over => 2,
            Builtin::Dupd => 2,
            Builtin::Rotl => 3,
            Builtin::Rotr => 3,
            Builtin::Keep => 2,
            Builtin::Eval => 1,
            Builtin::Println => 1,
            Builtin::If => 3,
            Builtin::Nth => 2,
        }
    }
}

} // verus!
