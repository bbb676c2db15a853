//! The parser: source text to syntax tree. A recursive-descent grammar with
//! ordered alternatives; builtin tokens are tried longest-prefix-first, and
//! a malformed construct after a committing token (an opened quote, brace or
//! bracket, or `def` followed by whitespace) is a hard failure that no outer
//! alternative recovers from.
use vstd::prelude::*;
use vstd::string::StrSliceExecFns;
use crate::ast::{builtin_token, Builtin, Expression, Literal, Procedure, Program, Statement};
use crate::model::{
    exprs_view, lemma_exprs_view, lemma_exprs_view_concat, lemma_exprs_view_one,
    lemma_stmts_view, lemma_stmts_view_concat, lemma_stmts_view_one, lit_view, stmt_view,
    stmts_view, ExpressionV, LiteralV, StatementV,
};

verus! {

/// The outcome of one grammar rule: success with the position one past the
/// consumed text, a soft failure that lets the next alternative try, or a
/// hard failure after the rule committed.
pub ghost enum PRes<T> {
    Parsed(int, T),
    Soft,
    Hard,
}

pub open spec fn is_digit(c: char) -> bool {
    48 <= c as u32 <= 57
}

pub open spec fn is_alpha(c: char) -> bool {
    (97 <= c as u32 <= 122) || (65 <= c as u32 <= 90)
}

pub open spec fn is_alnum(c: char) -> bool {
    is_alpha(c) || is_digit(c)
}

/// Horizontal whitespace: a space or a tab.
pub open spec fn is_space(c: char) -> bool {
    c == ' ' || c == '\t'
}

/// Any whitespace, line breaks included.
pub open spec fn is_multispace(c: char) -> bool {
    c == ' ' || c == '\t' || c == '\r' || c == '\n'
}

/// The numeric value of a digit character.
pub open spec fn digit_of(c: char) -> nat
    recommends
        is_digit(c),
{
    (c as u32 - 48) as nat
}

/// The first position at or after `i` that does not hold horizontal
/// whitespace.
pub open spec fn skip_spaces(s: Seq<char>, i: int) -> int
    decreases s.len() - i,
{
    if 0 <= i < s.len() && is_space(s[i]) {
        skip_spaces(s, i + 1)
    } else {
        i
    }
}

/// The first position at or after `i` that does not hold whitespace.
pub open spec fn skip_multispaces(s: Seq<char>, i: int) -> int
    decreases s.len() - i,
{
    if 0 <= i < s.len() && is_multispace(s[i]) {
        skip_multispaces(s, i + 1)
    } else {
        i
    }
}

/// The first position at or after `i` that does not hold a digit.
pub open spec fn scan_digits(s: Seq<char>, i: int) -> int
    decreases s.len() - i,
{
    if 0 <= i < s.len() && is_digit(s[i]) {
        scan_digits(s, i + 1)
    } else {
        i
    }
}

/// The first position at or after `i` that does not hold a letter.
pub open spec fn scan_alphas(s: Seq<char>, i: int) -> int
    decreases s.len() - i,
{
    if 0 <= i < s.len() && is_alpha(s[i]) {
        scan_alphas(s, i + 1)
    } else {
        i
    }
}

/// The first position at or after `i` that does not hold a letter or digit.
pub open spec fn scan_alnums(s: Seq<char>, i: int) -> int
    decreases s.len() - i,
{
    if 0 <= i < s.len() && is_alnum(s[i]) {
        scan_alnums(s, i + 1)
    } else {
        i
    }
}

/// The first position at or after `i` that holds a line break, or the end.
pub open spec fn scan_comment(s: Seq<char>, i: int) -> int
    decreases s.len() - i,
{
    if 0 <= i < s.len() && s[i] != '\n' && s[i] != '\r' {
        scan_comment(s, i + 1)
    } else {
        i
    }
}

/// The first position at or after `i` that holds a quote or a backslash, or
/// the end.
pub open spec fn scan_text(s: Seq<char>, i: int) -> int
    decreases s.len() - i,
{
    if 0 <= i < s.len() && s[i] != '"' && s[i] != '\\' {
        scan_text(s, i + 1)
    } else {
        i
    }
}

/// The value of the digit run `s[i..j)`, most significant digit first.
pub open spec fn digits_val(s: Seq<char>, i: int, j: int) -> nat
    decreases j - i,
{
    if i >= j {
        0
    } else {
        digits_val(s, i, j - 1) * 10 + digit_of(s[j - 1])
    }
}

/// Whether the text `t` stands at position `i` of `s`.
pub open spec fn tag_at(s: Seq<char>, i: int, t: Seq<char>) -> bool {
    0 <= i && i + t.len() <= s.len() && s.subrange(i, i + t.len()) == t
}

/// A number literal: an optional sign and a digit run whose value fits the
/// numeric range.
pub open spec fn p_number(s: Seq<char>, i: int) -> PRes<int> {
    let signed = 0 <= i < s.len() && (s[i] == '-' || s[i] == '+');
    let neg = 0 <= i < s.len() && s[i] == '-';
    let j = if signed {
        i + 1
    } else {
        i
    };
    let k = scan_digits(s, j);
    if k == j {
        PRes::Soft
    } else {
        let m = digits_val(s, j, k);
        let v: int = if neg {
            -(m as int)
        } else {
            m as int
        };
        if v < i64::MIN as int || v > i64::MAX as int {
            PRes::Soft
        } else {
            PRes::Parsed(k, v)
        }
    }
}

/// A string literal: a quote, one or more characters that are neither a
/// quote nor a backslash, and a closing quote. Once the quote is open, a
/// missing closing quote — at a backslash or at the end of the input — is a
/// hard, non-backtracking failure; only the empty string is rejected softly.
pub open spec fn p_text(s: Seq<char>, i: int) -> PRes<Seq<char>> {
    if !(0 <= i < s.len() && s[i] == '"') {
        PRes::Soft
    } else {
        let j = scan_text(s, i + 1);
        if j < s.len() && s[j] == '"' {
            if j == i + 1 {
                PRes::Soft
            } else {
                PRes::Parsed(j + 1, s.subrange(i + 1, j))
            }
        } else {
            PRes::Hard
        }
    }
}

/// A boolean literal: exactly `false` or `true`.
pub open spec fn p_bool(s: Seq<char>, i: int) -> PRes<bool> {
    if tag_at(s, i, seq!['f', 'a', 'l', 's', 'e']) {
        PRes::Parsed(i + 5, false)
    } else if tag_at(s, i, seq!['t', 'r', 'u', 'e']) {
        PRes::Parsed(i + 4, true)
    } else {
        PRes::Soft
    }
}

/// A literal, trying a number, then a string, then a boolean.
pub open spec fn p_literal(s: Seq<char>, i: int) -> PRes<LiteralV> {
    match p_number(s, i) {
        PRes::Parsed(j, v) => PRes::Parsed(j, LiteralV::Number(v)),
        _ => match p_text(s, i) {
            PRes::Parsed(j, t) => PRes::Parsed(j, LiteralV::Text(t)),
            PRes::Hard => PRes::Hard,
            PRes::Soft => match p_bool(s, i) {
                PRes::Parsed(j, b) => PRes::Parsed(j, LiteralV::Bool(b)),
                _ => PRes::Soft,
            },
        },
    }
}

/// An identifier: a letter run or one underscore, then letters and digits,
/// then an optional question mark.
pub open spec fn p_identifier(s: Seq<char>, i: int) -> PRes<Seq<char>> {
    if 0 <= i < s.len() && (is_alpha(s[i]) || s[i] == '_') {
        let j = if is_alpha(s[i]) {
            scan_alphas(s, i)
        } else {
            i + 1
        };
        let k = scan_alnums(s, j);
        let m = if k < s.len() && s[k] == '?' {
            k + 1
        } else {
            k
        };
        PRes::Parsed(m, s.subrange(i, m))
    } else {
        PRes::Soft
    }
}

/// The builtin tokens, in trial order: wherever one token is a prefix of
/// another, the longer one is tried first.
pub open spec fn builtin_order() -> Seq<Builtin> {
    seq![
        Builtin::Add,
        Builtin::Sub,
        Builtin::Mul,
        Builtin::Div,
        Builtin::Eq,
        Builtin::Neg,
        Builtin::Le,
        Builtin::Lt,
        Builtin::Ge,
        Builtin::Gt,
        Builtin::Swap,
        Builtin::Drop,
        Builtin::Drop2,
        Builtin::Drop3,
        Builtin::Over,
        Builtin::Eval,
        Builtin::Dupd,
        Builtin::Dup,
        Builtin::Dup2,
        Builtin::Rotl,
        Builtin::Rotr,
        Builtin::Keep,
        Builtin::Println,
        Builtin::If,
        Builtin::Nth,
    ]
}

/// A builtin token, tried in `builtin_order` starting at alternative `k`.
pub open spec fn p_builtin_from(s: Seq<char>, i: int, k: int) -> PRes<Builtin>
    decreases builtin_order().len() - k,
{
    if k < 0 || k >= builtin_order().len() {
        PRes::Soft
    } else {
        let b = builtin_order()[k];
        if tag_at(s, i, builtin_token(b)) {
            PRes::Parsed(i + builtin_token(b).len(), b)
        } else {
            p_builtin_from(s, i, k + 1)
        }
    }
}

/// A builtin token.
pub open spec fn p_builtin(s: Seq<char>, i: int) -> PRes<Builtin> {
    p_builtin_from(s, i, 0)
}

/// An expression: a literal, a procedure or a list.
pub open spec fn p_expression(s: Seq<char>, i: int) -> PRes<ExpressionV>
    decreases s.len() - i, 1int,
{
    match p_literal(s, i) {
        PRes::Parsed(j, l) => PRes::Parsed(j, ExpressionV::Literal(l)),
        PRes::Hard => PRes::Hard,
        PRes::Soft => match p_procedure(s, i) {
            PRes::Parsed(j, ss) => PRes::Parsed(j, ExpressionV::Procedure(ss)),
            PRes::Hard => PRes::Hard,
            PRes::Soft => match p_list(s, i) {
                PRes::Parsed(j, es) => PRes::Parsed(j, ExpressionV::List(es)),
                PRes::Hard => PRes::Hard,
                PRes::Soft => PRes::Soft,
            },
        },
    }
}

/// A procedure: statements between braces. Once the brace is open, failing
/// to reach the closing brace is a hard failure.
pub open spec fn p_procedure(s: Seq<char>, i: int) -> PRes<Seq<StatementV>>
    decreases s.len() - i, 0int,
{
    if !(0 <= i < s.len() && s[i] == '{') {
        PRes::Soft
    } else {
        match p_statements(s, i + 1) {
            PRes::Parsed(j, ss) => if j < s.len() && s[j] == '}' {
                PRes::Parsed(j + 1, ss)
            } else {
                PRes::Hard
            },
            _ => PRes::Hard,
        }
    }
}

/// A list: whitespace-separated expressions between brackets. Once the
/// bracket is open, failing to reach the closing bracket is a hard failure.
pub open spec fn p_list(s: Seq<char>, i: int) -> PRes<Seq<ExpressionV>>
    decreases s.len() - i, 0int,
{
    if !(0 <= i < s.len() && s[i] == '[') {
        PRes::Soft
    } else {
        let j = skip_multispaces(s, i + 1);
        if j < i + 1 || j > s.len() {
            PRes::Hard
        } else {
            match p_expr_list(s, j) {
            PRes::Parsed(k, es) => {
                let m = skip_multispaces(s, k);
                if m < s.len() && s[m] == ']' {
                    PRes::Parsed(m + 1, es)
                } else {
                    PRes::Hard
                }
            },
            _ => PRes::Hard,
        }
        }
    }
}

/// Zero or more expressions separated by whitespace.
pub open spec fn p_expr_list(s: Seq<char>, i: int) -> PRes<Seq<ExpressionV>>
    decreases s.len() - i, 2int,
{
    if i < 0 || i > s.len() {
        PRes::Soft
    } else {
        match p_expression(s, i) {
            PRes::Hard => PRes::Hard,
            PRes::Soft => PRes::Parsed(i, Seq::empty()),
            PRes::Parsed(j, e) => if !(i < j <= s.len()) {
                PRes::Parsed(i, Seq::empty())
            } else {
                match p_expr_list_more(s, j) {
                    PRes::Parsed(end, rest) => PRes::Parsed(end, seq![e] + rest),
                    PRes::Hard => PRes::Hard,
                    PRes::Soft => PRes::Soft,
                }
            },
        }
    }
}

/// Further whitespace-then-expression items; a separator not followed by an
/// expression is left unconsumed.
pub open spec fn p_expr_list_more(s: Seq<char>, i: int) -> PRes<Seq<ExpressionV>>
    decreases s.len() - i, 3int,
{
    if i < 0 || i > s.len() {
        PRes::Soft
    } else {
        let k = skip_multispaces(s, i);
        if k <= i || k > s.len() {
            PRes::Parsed(i, Seq::empty())
        } else {
            match p_expression(s, k) {
                PRes::Hard => PRes::Hard,
                PRes::Soft => PRes::Parsed(i, Seq::empty()),
                PRes::Parsed(m, e) => if !(k < m <= s.len()) {
                    PRes::Parsed(i, Seq::empty())
                } else {
                    match p_expr_list_more(s, m) {
                        PRes::Parsed(end, rest) => PRes::Parsed(end, seq![e] + rest),
                        PRes::Hard => PRes::Hard,
                        PRes::Soft => PRes::Soft,
                    }
                },
            }
        }
    }
}

/// A definition: `def`, whitespace, a name, then a procedure. Once `def`
/// and its whitespace match, anything malformed after them is a hard
/// failure rather than a fallback to another alternative.
pub open spec fn p_definition(s: Seq<char>, i: int) -> PRes<StatementV>
    decreases s.len() - i, 1int,
{
    if !tag_at(s, i, seq!['d', 'e', 'f']) {
        PRes::Soft
    } else {
        let j = skip_multispaces(s, i + 3);
        if j == i + 3 {
            PRes::Soft
        } else {
            match p_identifier(s, j) {
                PRes::Parsed(m, id) => {
                    let n2 = skip_multispaces(s, m);
                    if n2 < i || n2 > s.len() {
                        PRes::Hard
                    } else {
                        match p_procedure(s, n2) {
                        PRes::Parsed(end, body) => PRes::Parsed(
                            end,
                            StatementV::Definition { identifier: id, procedure: body },
                        ),
                        _ => PRes::Hard,
                    }
                    }
                },
                _ => PRes::Hard,
            }
        }
    }
}

/// A statement, in trial order: a definition, a builtin token, a bare
/// identifier (word reference), or an expression.
pub open spec fn p_statement(s: Seq<char>, i: int) -> PRes<StatementV>
    decreases s.len() - i, 2int,
{
    match p_definition(s, i) {
        PRes::Parsed(j, st) => PRes::Parsed(j, st),
        PRes::Hard => PRes::Hard,
        PRes::Soft => match p_builtin(s, i) {
            PRes::Parsed(j, b) => PRes::Parsed(j, StatementV::Builtin(b)),
            _ => match p_identifier(s, i) {
                PRes::Parsed(j, w) => PRes::Parsed(j, StatementV::Word(w)),
                _ => match p_expression(s, i) {
                    PRes::Parsed(j, e) => PRes::Parsed(j, StatementV::Expression(e)),
                    PRes::Hard => PRes::Hard,
                    PRes::Soft => PRes::Soft,
                },
            },
        },
    }
}

/// Zero or more statements separated by horizontal whitespace.
pub open spec fn p_stmt_list(s: Seq<char>, i: int) -> PRes<Seq<StatementV>>
    decreases s.len() - i, 3int,
{
    if i < 0 || i > s.len() {
        PRes::Soft
    } else {
        match p_statement(s, i) {
            PRes::Hard => PRes::Hard,
            PRes::Soft => PRes::Parsed(i, Seq::empty()),
            PRes::Parsed(j, st) => if !(i < j <= s.len()) {
                PRes::Parsed(i, Seq::empty())
            } else {
                match p_stmt_list_more(s, j) {
                    PRes::Parsed(end, rest) => PRes::Parsed(end, seq![st] + rest),
                    PRes::Hard => PRes::Hard,
                    PRes::Soft => PRes::Soft,
                }
            },
        }
    }
}

/// Further space-then-statement items; a separator not followed by a
/// statement is left unconsumed.
pub open spec fn p_stmt_list_more(s: Seq<char>, i: int) -> PRes<Seq<StatementV>>
    decreases s.len() - i, 4int,
{
    if i < 0 || i > s.len() {
        PRes::Soft
    } else {
        let k = skip_spaces(s, i);
        if k <= i || k > s.len() {
            PRes::Parsed(i, Seq::empty())
        } else {
            match p_statement(s, k) {
                PRes::Hard => PRes::Hard,
                PRes::Soft => PRes::Parsed(i, Seq::empty()),
                PRes::Parsed(m, st) => if !(k < m <= s.len()) {
                    PRes::Parsed(i, Seq::empty())
                } else {
                    match p_stmt_list_more(s, m) {
                        PRes::Parsed(end, rest) => PRes::Parsed(end, seq![st] + rest),
                        PRes::Hard => PRes::Hard,
                        PRes::Soft => PRes::Soft,
                    }
                },
            }
        }
    }
}

/// One line: its statements, trailing horizontal whitespace, and an
/// optional end-of-line comment (`#` to the end of the line).
pub open spec fn p_line(s: Seq<char>, i: int) -> PRes<Seq<StatementV>>
    decreases s.len() - i, 5int,
{
    match p_stmt_list(s, i) {
        PRes::Parsed(j, ss) => {
            let k = skip_spaces(s, j);
            let m = if k < s.len() && s[k] == '#' {
                scan_comment(s, k + 1)
            } else {
                k
            };
            PRes::Parsed(m, ss)
        },
        _ => PRes::Hard,
    }
}

/// One or more lines separated by whitespace runs that include a line
/// break; the lines' statements are concatenated in order.
pub open spec fn p_lines(s: Seq<char>, i: int) -> PRes<Seq<StatementV>>
    decreases s.len() - i, 6int,
{
    match p_line(s, i) {
        PRes::Parsed(j, ss) => if j < i || j > s.len() {
            PRes::Hard
        } else {
            match p_lines_more(s, j) {
                PRes::Parsed(end, rest) => PRes::Parsed(end, ss + rest),
                _ => PRes::Hard,
            }
        },
        _ => PRes::Hard,
    }
}

/// Further whitespace-then-line items.
pub open spec fn p_lines_more(s: Seq<char>, i: int) -> PRes<Seq<StatementV>>
    decreases s.len() - i, 0int,
{
    if i < 0 || i > s.len() {
        PRes::Soft
    } else {
        let k = skip_multispaces(s, i);
        if k <= i || k > s.len() {
            PRes::Parsed(i, Seq::empty())
        } else {
            match p_line(s, k) {
                PRes::Parsed(m, ss) => if m < k || m > s.len() {
                    PRes::Parsed(i, Seq::empty())
                } else {
                    match p_lines_more(s, m) {
                        PRes::Parsed(end, rest) => PRes::Parsed(end, ss + rest),
                        _ => PRes::Hard,
                    }
                },
                _ => PRes::Hard,
            }
        }
    }
}

/// A statement sequence: leading whitespace, then lines.
pub open spec fn p_statements(s: Seq<char>, i: int) -> PRes<Seq<StatementV>>
    decreases s.len() - i, 7int,
{
    let j = skip_multispaces(s, i);
    if j < i || j > s.len() {
        PRes::Hard
    } else {
        p_lines(s, j)
    }
}

/// A whole program: a statement sequence that consumes all input; leftover
/// input is a failure.
pub open spec fn p_program(s: Seq<char>) -> PRes<Seq<StatementV>> {
    match p_statements(s, 0) {
        PRes::Parsed(end, ss) => if end == s.len() {
            PRes::Parsed(end, ss)
        } else {
            PRes::Soft
        },
        PRes::Hard => PRes::Hard,
        PRes::Soft => PRes::Soft,
    }
}

/// The grammar rule names attached to parse failures, outermost last.
#[derive(Debug, Clone, Copy, PartialEq, Eq, Structural)]
pub enum Rule {
    Program,
    Statement,
    Definition,
    Builtin,
    Identifier,
    Expression,
    Literal,
    Procedure,
    List,
    Boolean,
    Text,
}

/// A structured parse error: the position of the offending input, whether
/// the failure came after a committing token (so no other alternative may
/// recover), and the trace of named rules that were being parsed, innermost
/// first.
#[derive(Debug, Clone, PartialEq)]
pub struct ParseError {
    pub position: usize,
    pub hard: bool,
    pub trace: Vec<Rule>,
}

/// The metadata every reported failure carries: a position inside the
/// input, and a named-rule trace whose outermost (last) entry is the rule
/// that reported or enclosed the failure.
pub open spec fn err_meta(e: ParseError, limit: int, rule: Rule) -> bool {
    &&& e.position <= limit
    &&& e.trace@.len() >= 1
    &&& e.trace@.last() == rule
}

/// A fresh parse error for one rule.
fn perr(position: usize, hard: bool, rule: Rule) -> (r: ParseError)
    ensures
        r.position == position,
        r.hard == hard,
        r.trace@ == seq![rule],
{
    ParseError { position, hard, trace: vec![rule] }
}

/// The same failure, one enclosing rule added to its trace.
fn within(e: ParseError, rule: Rule) -> (r: ParseError)
    ensures
        r.position == e.position,
        r.hard == e.hard,
        r.trace@ == e.trace@.push(rule),
{
    let mut e = e;
    e.trace.push(rule);
    e
}

fn sc_spaces(s: &Vec<char>, i: usize) -> (r: usize)
    requires
        i <= s@.len(),
    ensures
        r as int == skip_spaces(s@, i as int),
        i <= r <= s@.len(),
{
    let mut j = i;
    while j < s.len() && (s[j] == ' ' || s[j] == '\t')
        invariant
            i <= j <= s@.len(),
            skip_spaces(s@, i as int) == skip_spaces(s@, j as int),
        decreases s@.len() - j,
    {
        j += 1;
    }
    j
}

fn sc_multispaces(s: &Vec<char>, i: usize) -> (r: usize)
    requires
        i <= s@.len(),
    ensures
        r as int == skip_multispaces(s@, i as int),
        i <= r <= s@.len(),
{
    let mut j = i;
    while j < s.len() && (s[j] == ' ' || s[j] == '\t' || s[j] == '\r' || s[j] == '\n')
        invariant
            i <= j <= s@.len(),
            skip_multispaces(s@, i as int) == skip_multispaces(s@, j as int),
        decreases s@.len() - j,
    {
        j += 1;
    }
    j
}

fn is_digit_c(c: char) -> (r: bool)
    ensures
        r == is_digit(c),
{
    (c as u32) >= 48 && (c as u32) <= 57
}

fn is_alpha_c(c: char) -> (r: bool)
    ensures
        r == is_alpha(c),
{
    ((c as u32) >= 97 && (c as u32) <= 122) || ((c as u32) >= 65 && (c as u32) <= 90)
}

fn sc_digits(s: &Vec<char>, i: usize) -> (r: usize)
    requires
        i <= s@.len(),
    ensures
        r as int == scan_digits(s@, i as int),
        i <= r <= s@.len(),
{
    let mut j = i;
    while j < s.len() && is_digit_c(s[j])
        invariant
            i <= j <= s@.len(),
            scan_digits(s@, i as int) == scan_digits(s@, j as int),
        decreases s@.len() - j,
    {
        j += 1;
    }
    j
}

fn sc_alphas(s: &Vec<char>, i: usize) -> (r: usize)
    requires
        i <= s@.len(),
    ensures
        r as int == scan_alphas(s@, i as int),
        i <= r <= s@.len(),
{
    let mut j = i;
    while j < s.len() && is_alpha_c(s[j])
        invariant
            i <= j <= s@.len(),
            scan_alphas(s@, i as int) == scan_alphas(s@, j as int),
        decreases s@.len() - j,
    {
        j += 1;
    }
    j
}

fn sc_alnums(s: &Vec<char>, i: usize) -> (r: usize)
    requires
        i <= s@.len(),
    ensures
        r as int == scan_alnums(s@, i as int),
        i <= r <= s@.len(),
{
    let mut j = i;
    while j < s.len() && (is_alpha_c(s[j]) || is_digit_c(s[j]))
        invariant
            i <= j <= s@.len(),
            scan_alnums(s@, i as int) == scan_alnums(s@, j as int),
        decreases s@.len() - j,
    {
        j += 1;
    }
    j
}

fn sc_comment(s: &Vec<char>, i: usize) -> (r: usize)
    requires
        i <= s@.len(),
    ensures
        r as int == scan_comment(s@, i as int),
        i <= r <= s@.len(),
{
    let mut j = i;
    while j < s.len() && s[j] != '\n' && s[j] != '\r'
        invariant
            i <= j <= s@.len(),
            scan_comment(s@, i as int) == scan_comment(s@, j as int),
        decreases s@.len() - j,
    {
        j += 1;
    }
    j
}

fn sc_text(s: &Vec<char>, i: usize) -> (r: usize)
    requires
        i <= s@.len(),
    ensures
        r as int == scan_text(s@, i as int),
        i <= r <= s@.len(),
{
    let mut j = i;
    while j < s.len() && s[j] != '"' && s[j] != '\\'
        invariant
            i <= j <= s@.len(),
            scan_text(s@, i as int) == scan_text(s@, j as int),
        decreases s@.len() - j,
    {
        j += 1;
    }
    j
}

/// Every character of a digit run is a digit.
proof fn lemma_scan_digits_chars(s: Seq<char>, i: int)
    ensures
        forall|q: int| i <= q < scan_digits(s, i) ==> is_digit(#[trigger] s[q]),
    decreases s.len() - i,
{
    if 0 <= i < s.len() && is_digit(s[i]) {
        lemma_scan_digits_chars(s, i + 1);
    }
}

/// The characters of `s` between `i` and `j`, as an owned string.
fn substring_chars(s: &Vec<char>, i: usize, j: usize) -> (r: String)
    requires
        i <= j <= s@.len(),
    ensures
        r@ == s@.subrange(i as int, j as int),
{
    let mut out: Vec<char> = Vec::new();
    let mut q = i;
    while q < j
        invariant
            i <= q <= j <= s@.len(),
            out@ == s@.subrange(i as int, q as int),
        decreases j - q,
    {
        out.push(s[q]);
        proof {
            assert(s@.subrange(i as int, q + 1 as int) =~= s@.subrange(i as int, q as int).push(
                s@[q as int],
            ));
        }
        q += 1;
    }
    crate::text::chars_to_string(&out)
}

/// Whether the token stands at position `i`.
#[verifier::rlimit(60)]
fn tag_here(s: &Vec<char>, i: usize, t: &str) -> (r: bool)
    requires
        i <= s@.len(),
    ensures
        r == tag_at(s@, i as int, t@),
        r ==> i + t@.len() <= s@.len() && i + t@.len() <= usize::MAX,
{
    let tl = t.unicode_len();
    if tl > s.len() - i {
        return false;
    }
    let n = s.len();
    let mut q: usize = 0;
    while q < tl
        invariant
            0 <= q <= tl,
            i + tl <= s@.len(),
            n == s@.len(),
            tl == t@.len(),
            forall|p: int| 0 <= p < q ==> s@[i + p] == t@[p],
        decreases tl - q,
    {
        proof {
            assert(i + q < s@.len());
        }
        if s[i + q] != t.get_char(q) {
            proof {
                assert(s@.subrange(i as int, i + t@.len())[q as int] != t@[q as int]);
            }
            return false;
        }
        q += 1;
    }
    proof {
        assert(s@.subrange(i as int, i + t@.len()) =~= t@);
    }
    true
}

/// A number literal.
fn number_at(s: &Vec<char>, i: usize) -> (r: Result<(usize, i64), ParseError>)
    requires
        i <= s@.len(),
    ensures
        ({
            let sp = p_number(s@, i as int);
            match r {
                Ok((j, v)) => i <= j <= s@.len() && sp == PRes::<int>::Parsed(j as int, v as int),
                Err(e) => !e.hard && sp is Soft && err_meta(e, s@.len() as int, Rule::Literal),
            }
        }),
{
    let len = s.len();
    let neg = i < len && s[i] == '-';
    let j0 = if i < len && (s[i] == '-' || s[i] == '+') {
        i + 1
    } else {
        i
    };
    let k = sc_digits(s, j0);
    if k == j0 {
        return Err(perr(i, false, Rule::Literal));
    }
    proof {
        lemma_scan_digits_chars(s@, j0 as int);
        assert(digits_val(s@, j0 as int, j0 as int) == 0);
    }
    let mut acc: u128 = 0;
    let mut overflow = false;
    let mut t = j0;
    while t < k
        invariant
            j0 <= t <= k <= s@.len(),
            k as int == scan_digits(s@, j0 as int),
            forall|q: int| j0 <= q < k ==> is_digit(#[trigger] s@[q]),
            !overflow ==> acc == digits_val(s@, j0 as int, t as int)
                && acc <= 0x8000_0000_0000_0000u128,
            overflow ==> digits_val(s@, j0 as int, t as int) > 0x8000_0000_0000_0000nat,
        decreases k - t,
    {
        let c = s[t];
        let d: u32 = (c as u32) - 48;
        proof {
            assert(is_digit(s@[t as int]));
            assert(d == digit_of(s@[t as int]));
            assert(digits_val(s@, j0 as int, t + 1 as int) == digits_val(s@, j0 as int, t as int)
                * 10 + digit_of(s@[t as int]));
        }
        if overflow {
            proof {
                assert(digits_val(s@, j0 as int, t + 1 as int) > 0x8000_0000_0000_0000nat);
            }
        } else {
            let nv: u128 = acc * 10 + (d as u128);
            if nv > 0x8000_0000_0000_0000u128 {
                overflow = true;
            } else {
                acc = nv;
            }
        }
        t += 1;
    }
    if overflow {
        return Err(perr(i, false, Rule::Literal));
    }
    if neg {
        if acc == 0x8000_0000_0000_0000u128 {
            Ok((k, i64::MIN))
        } else {
            Ok((k, -(acc as i64)))
        }
    } else {
        if acc >= 0x8000_0000_0000_0000u128 {
            Err(perr(i, false, Rule::Literal))
        } else {
            Ok((k, acc as i64))
        }
    }
}

/// A string literal.
fn text_at(s: &Vec<char>, i: usize) -> (r: Result<(usize, String), ParseError>)
    requires
        i <= s@.len(),
    ensures
        ({
            let sp = p_text(s@, i as int);
            match r {
                Ok((j, t)) => i <= j <= s@.len() && sp == PRes::<Seq<char>>::Parsed(j as int, t@),
                Err(e) => (if e.hard {
                    sp is Hard
                } else {
                    sp is Soft
                }) && err_meta(e, s@.len() as int, Rule::Text) && (!e.hard ==> e.position == i)
                    && (e.hard ==> e.position as int == scan_text(s@, i + 1)),
            }
        }),
{
    if !(i < s.len() && s[i] == '"') {
        return Err(perr(i, false, Rule::Text));
    }
    let j = sc_text(s, i + 1);
    if j < s.len() && s[j] == '"' {
        if j == i + 1 {
            Err(perr(i, false, Rule::Text))
        } else {
            let t = substring_chars(s, i + 1, j);
            Ok((j + 1, t))
        }
    } else {
        Err(perr(j, true, Rule::Text))
    }
}

/// A boolean literal.
#[verifier::rlimit(60)]
fn bool_at(s: &Vec<char>, i: usize) -> (r: Result<(usize, bool), ParseError>)
    requires
        i <= s@.len(),
    ensures
        ({
            let sp = p_bool(s@, i as int);
            match r {
                Ok((j, b)) => i <= j <= s@.len() && sp == PRes::<bool>::Parsed(j as int, b),
                Err(e) => !e.hard && sp is Soft && err_meta(e, s@.len() as int, Rule::Boolean)
                    && e.position == i,
            }
        }),
{
    proof {
        reveal_strlit("false");
        reveal_strlit("true");
        assert("false"@ =~= seq!['f', 'a', 'l', 's', 'e']);
        assert("true"@ =~= seq!['t', 'r', 'u', 'e']);
    }
    if tag_here(s, i, "false") {
        Ok((i + 5, false))
    } else if tag_here(s, i, "true") {
        Ok((i + 4, true))
    } else {
        Err(perr(i, false, Rule::Boolean))
    }
}

/// A literal: a number, a string or a boolean.
fn literal_at(s: &Vec<char>, i: usize) -> (r: Result<(usize, Literal), ParseError>)
    requires
        i <= s@.len(),
    ensures
        ({
            let sp = p_literal(s@, i as int);
            match r {
                Ok((j, l)) => i <= j <= s@.len() && sp == PRes::<LiteralV>::Parsed(j as int, l@),
                Err(e) => (if e.hard {
                    sp is Hard
                } else {
                    sp is Soft
                }) && err_meta(e, s@.len() as int, Rule::Literal),
            }
        }),
{
    match number_at(s, i) {
        Ok((j, v)) => Ok((j, Literal::Number(v))),
        Err(_) => match text_at(s, i) {
            Ok((j, t)) => Ok((j, Literal::String(t))),
            Err(e) => {
                if e.hard {
                    Err(within(e, Rule::Literal))
                } else {
                    match bool_at(s, i) {
                        Ok((j, b)) => Ok((j, Literal::Bool(b))),
                        Err(e2) => Err(within(e2, Rule::Literal)),
                    }
                }
            },
        },
    }
}

/// An identifier.
fn identifier_at(s: &Vec<char>, i: usize) -> (r: Result<(usize, String), ParseError>)
    requires
        i <= s@.len(),
    ensures
        ({
            let sp = p_identifier(s@, i as int);
            match r {
                Ok((j, w)) => i <= j <= s@.len() && sp == PRes::<Seq<char>>::Parsed(j as int, w@),
                Err(e) => !e.hard && sp is Soft && err_meta(e, s@.len() as int, Rule::Identifier)
                    && e.position == i,
            }
        }),
{
    if i < s.len() && (is_alpha_c(s[i]) || s[i] == '_') {
        let j = if is_alpha_c(s[i]) {
            sc_alphas(s, i)
        } else {
            i + 1
        };
        let k = sc_alnums(s, j);
        let m = if k < s.len() && s[k] == '?' {
            k + 1
        } else {
            k
        };
        let w = substring_chars(s, i, m);
        Ok((m, w))
    } else {
        Err(perr(i, false, Rule::Identifier))
    }
}

/// A builtin token, longest-prefix-first wherever one token is a prefix of
/// another.
#[verifier::rlimit(60)]
fn builtin_at(s: &Vec<char>, i: usize) -> (r: Result<(usize, Builtin), ParseError>)
    requires
        i <= s@.len(),
    ensures
        ({
            let sp = p_builtin(s@, i as int);
            match r {
                Ok((j, b)) => i <= j <= s@.len() && sp == PRes::<Builtin>::Parsed(j as int, b),
                Err(e) => !e.hard && sp is Soft && err_meta(e, s@.len() as int, Rule::Builtin)
                    && e.position == i,
            }
        }),
{
    proof {
        reveal_with_fuel(p_builtin_from, 27);
    }
    if tag_here(s, i, Builtin::Add.to_str()) {
        return Ok((i + 1, Builtin::Add));
    }
    if tag_here(s, i, Builtin::Sub.to_str()) {
        return Ok((i + 1, Builtin::Sub));
    }
    if tag_here(s, i, Builtin::Mul.to_str()) {
        return Ok((i + 1, Builtin::Mul));
    }
    if tag_here(s, i, Builtin::Div.to_str()) {
        return Ok((i + 1, Builtin::Div));
    }
    if tag_here(s, i, Builtin::Eq.to_str()) {
        return Ok((i + 1, Builtin::Eq));
    }
    if tag_here(s, i, Builtin::Neg.to_str()) {
        return Ok((i + 1, Builtin::Neg));
    }
    if tag_here(s, i, Builtin::Le.to_str()) {
        return Ok((i + 2, Builtin::Le));
    }
    if tag_here(s, i, Builtin::Lt.to_str()) {
        return Ok((i + 1, Builtin::Lt));
    }
    if tag_here(s, i, Builtin::Ge.to_str()) {
        return Ok((i + 2, Builtin::Ge));
    }
    if tag_here(s, i, Builtin::Gt.to_str()) {
        return Ok((i + 1, Builtin::Gt));
    }
    if tag_here(s, i, Builtin::Swap.to_str()) {
        return Ok((i + 4, Builtin::Swap));
    }
    if tag_here(s, i, Builtin::Drop.to_str()) {
        return Ok((i + 4, Builtin::Drop));
    }
    if tag_here(s, i, Builtin::Drop2.to_str()) {
        return Ok((i + 5, Builtin::Drop2));
    }
    if tag_here(s, i, Builtin::Drop3.to_str()) {
        return Ok((i + 5, Builtin::Drop3));
    }
    if tag_here(s, i, Builtin::Over.to_str()) {
        return Ok((i + 4, Builtin::Over));
    }
    if tag_here(s, i, Builtin::Eval.to_str()) {
        return Ok((i + 4, Builtin::Eval));
    }
    if tag_here(s, i, Builtin::Dupd.to_str()) {
        return Ok((i + 4, Builtin::Dupd));
    }
    if tag_here(s, i, Builtin::Dup.to_str()) {
        return Ok((i + 3, Builtin::Dup));
    }
    if tag_here(s, i, Builtin::Dup2.to_str()) {
        return Ok((i + 4, Builtin::Dup2));
    }
    if tag_here(s, i, Builtin::Rotl.to_str()) {
        return Ok((i + 4, Builtin::Rotl));
    }
    if tag_here(s, i, Builtin::Rotr.to_str()) {
        return Ok((i + 4, Builtin::Rotr));
    }
    if tag_here(s, i, Builtin::Keep.to_str()) {
        return Ok((i + 4, Builtin::Keep));
    }
    if tag_here(s, i, Builtin::Println.to_str()) {
        return Ok((i + 7, Builtin::Println));
    }
    if tag_here(s, i, Builtin::If.to_str()) {
        return Ok((i + 2, Builtin::If));
    }
    if tag_here(s, i, Builtin::Nth.to_str()) {
        return Ok((i + 3, Builtin::Nth));
    }
    Err(perr(i, false, Rule::Builtin))
}

/// The same failure, hardened: the enclosing rule had committed.
fn harden(e: ParseError, rule: Rule) -> (r: ParseError)
    ensures
        r.hard,
        r.position == e.position,
        r.trace@ == e.trace@.push(rule),
{
    let mut e = within(e, rule);
    e.hard = true;
    e
}

/// An expression: a literal, a procedure or a list.
fn expression_at(s: &Vec<char>, i: usize) -> (r: Result<(usize, Expression), ParseError>)
    requires
        i <= s@.len(),
    ensures
        ({
            let sp = p_expression(s@, i as int);
            match r {
                Ok((j, e)) => i <= j <= s@.len() && sp == PRes::<ExpressionV>::Parsed(
                    j as int,
                    e@,
                ),
                Err(e) => (if e.hard {
                    sp is Hard
                } else {
                    sp is Soft
                }) && err_meta(e, s@.len() as int, Rule::Expression),
            }
        }),
    decreases s@.len() - i, 1int,
{
    match literal_at(s, i) {
        Ok((j, l)) => Ok((j, Expression::Literal(l))),
        Err(e) => {
            if e.hard {
                Err(within(e, Rule::Expression))
            } else {
                match procedure_at(s, i) {
                    Ok((j, ss)) => Ok((j, Expression::Procedure(Procedure(ss)))),
                    Err(e) => {
                        if e.hard {
                            Err(within(e, Rule::Expression))
                        } else {
                            match list_at(s, i) {
                                Ok((j, es)) => Ok((j, Expression::List(es))),
                                Err(e) => Err(within(e, Rule::Expression)),
                            }
                        }
                    },
                }
            }
        },
    }
}

/// A procedure: statements between braces.
fn procedure_at(s: &Vec<char>, i: usize) -> (r: Result<(usize, Vec<Statement>), ParseError>)
    requires
        i <= s@.len(),
    ensures
        ({
            let sp = p_procedure(s@, i as int);
            match r {
                Ok((j, ss)) => i <= j <= s@.len() && sp == PRes::<Seq<StatementV>>::Parsed(
                    j as int,
                    stmts_view(ss@),
                ),
                Err(e) => (if e.hard {
                    sp is Hard
                } else {
                    sp is Soft
                }) && err_meta(e, s@.len() as int, Rule::Procedure),
            }
        }),
    decreases s@.len() - i, 0int,
{
    if !(i < s.len() && s[i] == '{') {
        return Err(perr(i, false, Rule::Procedure));
    }
    match statements_at(s, i + 1) {
        Ok((j, ss)) => {
            if j < s.len() && s[j] == '}' {
                Ok((j + 1, ss))
            } else {
                Err(perr(j, true, Rule::Procedure))
            }
        },
        Err(e) => Err(harden(e, Rule::Procedure)),
    }
}

/// A list: expressions between brackets.
fn list_at(s: &Vec<char>, i: usize) -> (r: Result<(usize, Vec<Expression>), ParseError>)
    requires
        i <= s@.len(),
    ensures
        ({
            let sp = p_list(s@, i as int);
            match r {
                Ok((j, es)) => i <= j <= s@.len() && sp == PRes::<Seq<ExpressionV>>::Parsed(
                    j as int,
                    exprs_view(es@),
                ),
                Err(e) => (if e.hard {
                    sp is Hard
                } else {
                    sp is Soft
                }) && err_meta(e, s@.len() as int, Rule::List),
            }
        }),
    decreases s@.len() - i, 0int,
{
    if !(i < s.len() && s[i] == '[') {
        return Err(perr(i, false, Rule::List));
    }
    let j = sc_multispaces(s, i + 1);
    match expr_list_at(s, j) {
        Ok((k, es)) => {
            let m = sc_multispaces(s, k);
            if m < s.len() && s[m] == ']' {
                Ok((m + 1, es))
            } else {
                Err(perr(m, true, Rule::List))
            }
        },
        Err(e) => Err(harden(e, Rule::List)),
    }
}

/// Zero or more expressions separated by whitespace.
fn expr_list_at(s: &Vec<char>, i: usize) -> (r: Result<(usize, Vec<Expression>), ParseError>)
    requires
        i <= s@.len(),
    ensures
        ({
            let sp = p_expr_list(s@, i as int);
            match r {
                Ok((j, es)) => i <= j <= s@.len() && sp == PRes::<Seq<ExpressionV>>::Parsed(
                    j as int,
                    exprs_view(es@),
                ),
                Err(e) => (if e.hard {
                    sp is Hard
                } else {
                    sp is Soft
                }) && err_meta(e, s@.len() as int, Rule::Expression),
            }
        }),
    decreases s@.len() - i, 2int,
{
    match expression_at(s, i) {
        Err(e) => {
            if e.hard {
                Err(e)
            } else {
                let out: Vec<Expression> = Vec::new();
                proof {
                    assert(exprs_view(out@) =~= Seq::<ExpressionV>::empty());
                }
                Ok((i, out))
            }
        },
        Ok((j, e)) => {
            if j <= i {
                let out: Vec<Expression> = Vec::new();
                proof {
                    assert(exprs_view(out@) =~= Seq::<ExpressionV>::empty());
                }
                Ok((i, out))
            } else {
                match expr_list_more_at(s, j) {
                    Ok((end, mut rest)) => {
                        let ghost restv = rest@;
                        let mut out: Vec<Expression> = Vec::new();
                        out.push(e);
                        out.append(&mut rest);
                        proof {
                            assert(out@ == seq![e] + restv);
                            lemma_exprs_view_concat(seq![e], restv);
                            lemma_exprs_view_one(e);
                        }
                        Ok((end, out))
                    },
                    Err(e2) => Err(e2),
                }
            }
        },
    }
}

/// Further whitespace-then-expression items.
fn expr_list_more_at(s: &Vec<char>, i: usize) -> (r: Result<(usize, Vec<Expression>), ParseError>)
    requires
        i <= s@.len(),
    ensures
        ({
            let sp = p_expr_list_more(s@, i as int);
            match r {
                Ok((j, es)) => i <= j <= s@.len() && sp == PRes::<Seq<ExpressionV>>::Parsed(
                    j as int,
                    exprs_view(es@),
                ),
                Err(e) => (if e.hard {
                    sp is Hard
                } else {
                    sp is Soft
                }) && err_meta(e, s@.len() as int, Rule::Expression),
            }
        }),
    decreases s@.len() - i, 3int,
{
    let k = sc_multispaces(s, i);
    if k <= i {
        let out: Vec<Expression> = Vec::new();
        proof {
            assert(exprs_view(out@) =~= Seq::<ExpressionV>::empty());
        }
        return Ok((i, out));
    }
    match expression_at(s, k) {
        Err(e) => {
            if e.hard {
                Err(e)
            } else {
                let out: Vec<Expression> = Vec::new();
                proof {
                    assert(exprs_view(out@) =~= Seq::<ExpressionV>::empty());
                }
                Ok((i, out))
            }
        },
        Ok((m, e)) => {
            if m <= k {
                let out: Vec<Expression> = Vec::new();
                proof {
                    assert(exprs_view(out@) =~= Seq::<ExpressionV>::empty());
                }
                Ok((i, out))
            } else {
                match expr_list_more_at(s, m) {
                    Ok((end, mut rest)) => {
                        let ghost restv = rest@;
                        let mut out: Vec<Expression> = Vec::new();
                        out.push(e);
                        out.append(&mut rest);
                        proof {
                            assert(out@ == seq![e] + restv);
                            lemma_exprs_view_concat(seq![e], restv);
                            lemma_exprs_view_one(e);
                        }
                        Ok((end, out))
                    },
                    Err(e2) => Err(e2),
                }
            }
        },
    }
}

/// A definition: `def`, whitespace, a name, then a procedure body.
#[verifier::rlimit(60)]
fn definition_at(s: &Vec<char>, i: usize) -> (r: Result<(usize, Statement), ParseError>)
    requires
        i <= s@.len(),
    ensures
        ({
            let sp = p_definition(s@, i as int);
            match r {
                Ok((j, st)) => i <= j <= s@.len() && sp == PRes::<StatementV>::Parsed(
                    j as int,
                    st@,
                ),
                Err(e) => (if e.hard {
                    sp is Hard
                } else {
                    sp is Soft
                }) && err_meta(e, s@.len() as int, Rule::Definition),
            }
        }),
    decreases s@.len() - i, 1int,
{
    proof {
        reveal_strlit("def");
        assert("def"@ =~= seq!['d', 'e', 'f']);
    }
    if !tag_here(s, i, "def") {
        return Err(perr(i, false, Rule::Definition));
    }
    let j = sc_multispaces(s, i + 3);
    if j == i + 3 {
        return Err(perr(i, false, Rule::Definition));
    }
    match identifier_at(s, j) {
        Ok((m, id)) => {
            let n2 = sc_multispaces(s, m);
            match procedure_at(s, n2) {
                Ok((end, body)) => Ok((
                    end,
                    Statement::Definition { identifier: id, procedure: Procedure(body) },
                )),
                Err(e) => Err(harden(e, Rule::Definition)),
            }
        },
        Err(e) => Err(harden(e, Rule::Definition)),
    }
}

/// A statement, in trial order: a definition, a builtin token, a bare
/// identifier, or an expression.
fn statement_at(s: &Vec<char>, i: usize) -> (r: Result<(usize, Statement), ParseError>)
    requires
        i <= s@.len(),
    ensures
        ({
            let sp = p_statement(s@, i as int);
            match r {
                Ok((j, st)) => i <= j <= s@.len() && sp == PRes::<StatementV>::Parsed(
                    j as int,
                    st@,
                ),
                Err(e) => (if e.hard {
                    sp is Hard
                } else {
                    sp is Soft
                }) && err_meta(e, s@.len() as int, Rule::Statement),
            }
        }),
    decreases s@.len() - i, 2int,
{
    match definition_at(s, i) {
        Ok((j, st)) => Ok((j, st)),
        Err(e) => {
            if e.hard {
                Err(within(e, Rule::Statement))
            } else {
                match builtin_at(s, i) {
                    Ok((j, b)) => Ok((j, Statement::Builtin(b))),
                    Err(_) => match identifier_at(s, i) {
                        Ok((j, w)) => Ok((j, Statement::Word(w))),
                        Err(_) => match expression_at(s, i) {
                            Ok((j, e2)) => Ok((j, Statement::Expression(e2))),
                            Err(e2) => Err(within(e2, Rule::Statement)),
                        },
                    },
                }
            }
        },
    }
}

/// Zero or more statements separated by horizontal whitespace.
fn stmt_list_at(s: &Vec<char>, i: usize) -> (r: Result<(usize, Vec<Statement>), ParseError>)
    requires
        i <= s@.len(),
    ensures
        ({
            let sp = p_stmt_list(s@, i as int);
            match r {
                Ok((j, ss)) => i <= j <= s@.len() && sp == PRes::<Seq<StatementV>>::Parsed(
                    j as int,
                    stmts_view(ss@),
                ),
                Err(e) => (if e.hard {
                    sp is Hard
                } else {
                    sp is Soft
                }) && err_meta(e, s@.len() as int, Rule::Statement),
            }
        }),
    decreases s@.len() - i, 3int,
{
    match statement_at(s, i) {
        Err(e) => {
            if e.hard {
                Err(e)
            } else {
                let out: Vec<Statement> = Vec::new();
                proof {
                    assert(stmts_view(out@) =~= Seq::<StatementV>::empty());
                }
                Ok((i, out))
            }
        },
        Ok((j, st)) => {
            if j <= i {
                let out: Vec<Statement> = Vec::new();
                proof {
                    assert(stmts_view(out@) =~= Seq::<StatementV>::empty());
                }
                Ok((i, out))
            } else {
                match stmt_list_more_at(s, j) {
                    Ok((end, mut rest)) => {
                        let ghost restv = rest@;
                        let mut out: Vec<Statement> = Vec::new();
                        out.push(st);
                        out.append(&mut rest);
                        proof {
                            assert(out@ == seq![st] + restv);
                            lemma_stmts_view_concat(seq![st], restv);
                            lemma_stmts_view_one(st);
                        }
                        Ok((end, out))
                    },
                    Err(e2) => Err(e2),
                }
            }
        },
    }
}

/// Further space-then-statement items.
fn stmt_list_more_at(s: &Vec<char>, i: usize) -> (r: Result<(usize, Vec<Statement>), ParseError>)
    requires
        i <= s@.len(),
    ensures
        ({
            let sp = p_stmt_list_more(s@, i as int);
            match r {
                Ok((j, ss)) => i <= j <= s@.len() && sp == PRes::<Seq<StatementV>>::Parsed(
                    j as int,
                    stmts_view(ss@),
                ),
                Err(e) => (if e.hard {
                    sp is Hard
                } else {
                    sp is Soft
                }) && err_meta(e, s@.len() as int, Rule::Statement),
            }
        }),
    decreases s@.len() - i, 4int,
{
    let k = sc_spaces(s, i);
    if k <= i {
        let out: Vec<Statement> = Vec::new();
        proof {
            assert(stmts_view(out@) =~= Seq::<StatementV>::empty());
        }
        return Ok((i, out));
    }
    match statement_at(s, k) {
        Err(e) => {
            if e.hard {
                Err(e)
            } else {
                let out: Vec<Statement> = Vec::new();
                proof {
                    assert(stmts_view(out@) =~= Seq::<StatementV>::empty());
                }
                Ok((i, out))
            }
        },
        Ok((m, st)) => {
            if m <= k {
                let out: Vec<Statement> = Vec::new();
                proof {
                    assert(stmts_view(out@) =~= Seq::<StatementV>::empty());
                }
                Ok((i, out))
            } else {
                match stmt_list_more_at(s, m) {
                    Ok((end, mut rest)) => {
                        let ghost restv = rest@;
                        let mut out: Vec<Statement> = Vec::new();
                        out.push(st);
                        out.append(&mut rest);
                        proof {
                            assert(out@ == seq![st] + restv);
                            lemma_stmts_view_concat(seq![st], restv);
                            lemma_stmts_view_one(st);
                        }
                        Ok((end, out))
                    },
                    Err(e2) => Err(e2),
                }
            }
        },
    }
}

/// One line: statements, trailing spaces, and an optional comment.
fn line_at(s: &Vec<char>, i: usize) -> (r: Result<(usize, Vec<Statement>), ParseError>)
    requires
        i <= s@.len(),
    ensures
        ({
            let sp = p_line(s@, i as int);
            match r {
                Ok((j, ss)) => i <= j <= s@.len() && sp == PRes::<Seq<StatementV>>::Parsed(
                    j as int,
                    stmts_view(ss@),
                ),
                Err(e) => (if e.hard {
                    sp is Hard
                } else {
                    sp is Soft
                }) && err_meta(e, s@.len() as int, Rule::Statement),
            }
        }),
    decreases s@.len() - i, 5int,
{
    match stmt_list_at(s, i) {
        Ok((j, ss)) => {
            let k = sc_spaces(s, j);
            let m = if k < s.len() && s[k] == '#' {
                sc_comment(s, k + 1)
            } else {
                k
            };
            Ok((m, ss))
        },
        Err(e) => Err(harden(e, Rule::Statement)),
    }
}

/// One or more lines separated by whitespace runs.
fn lines_at(s: &Vec<char>, i: usize) -> (r: Result<(usize, Vec<Statement>), ParseError>)
    requires
        i <= s@.len(),
    ensures
        ({
            let sp = p_lines(s@, i as int);
            match r {
                Ok((j, ss)) => i <= j <= s@.len() && sp == PRes::<Seq<StatementV>>::Parsed(
                    j as int,
                    stmts_view(ss@),
                ),
                Err(e) => (if e.hard {
                    sp is Hard
                } else {
                    sp is Soft
                }) && err_meta(e, s@.len() as int, Rule::Program),
            }
        }),
    decreases s@.len() - i, 6int,
{
    match line_at(s, i) {
        Ok((j, mut ss)) => match lines_more_at(s, j) {
            Ok((end, mut rest)) => {
                let ghost ssv = ss@;
                let ghost restv = rest@;
                ss.append(&mut rest);
                proof {
                    lemma_stmts_view_concat(ssv, restv);
                }
                Ok((end, ss))
            },
            Err(e) => Err(harden(e, Rule::Program)),
        },
        Err(e) => Err(harden(e, Rule::Program)),
    }
}

/// Further whitespace-then-line items.
fn lines_more_at(s: &Vec<char>, i: usize) -> (r: Result<(usize, Vec<Statement>), ParseError>)
    requires
        i <= s@.len(),
    ensures
        ({
            let sp = p_lines_more(s@, i as int);
            match r {
                Ok((j, ss)) => i <= j <= s@.len() && sp == PRes::<Seq<StatementV>>::Parsed(
                    j as int,
                    stmts_view(ss@),
                ),
                Err(e) => (if e.hard {
                    sp is Hard
                } else {
                    sp is Soft
                }) && err_meta(e, s@.len() as int, Rule::Program),
            }
        }),
    decreases s@.len() - i, 0int,
{
    let k = sc_multispaces(s, i);
    if k <= i {
        let out: Vec<Statement> = Vec::new();
        proof {
            assert(stmts_view(out@) =~= Seq::<StatementV>::empty());
        }
        return Ok((i, out));
    }
    match line_at(s, k) {
        Ok((m, mut ss)) => {
            if m < k {
                let out: Vec<Statement> = Vec::new();
                proof {
                    assert(stmts_view(out@) =~= Seq::<StatementV>::empty());
                }
                Ok((i, out))
            } else {
                match lines_more_at(s, m) {
                    Ok((end, mut rest)) => {
                        let ghost ssv = ss@;
                        let ghost restv = rest@;
                        ss.append(&mut rest);
                        proof {
                            lemma_stmts_view_concat(ssv, restv);
                        }
                        Ok((end, ss))
                    },
                    Err(e) => Err(harden(e, Rule::Program)),
                }
            }
        },
        Err(e) => Err(harden(e, Rule::Program)),
    }
}

/// A statement sequence: leading whitespace, then lines.
fn statements_at(s: &Vec<char>, i: usize) -> (r: Result<(usize, Vec<Statement>), ParseError>)
    requires
        i <= s@.len(),
    ensures
        ({
            let sp = p_statements(s@, i as int);
            match r {
                Ok((j, ss)) => i <= j <= s@.len() && sp == PRes::<Seq<StatementV>>::Parsed(
                    j as int,
                    stmts_view(ss@),
                ),
                Err(e) => (if e.hard {
                    sp is Hard
                } else {
                    sp is Soft
                }) && err_meta(e, s@.len() as int, Rule::Program),
            }
        }),
    decreases s@.len() - i, 7int,
{
    let j = sc_multispaces(s, i);
    lines_at(s, j)
}

/// The characters of a string slice, as a vector.
fn str_to_chars(s: &str) -> (r: Vec<char>)
    ensures
        r@ == s@,
{
    let len = s.unicode_len();
    let mut out: Vec<char> = Vec::new();
    let mut i: usize = 0;
    while i < len
        invariant
            i <= len,
            len == s@.len(),
            out@ == s@.subrange(0, i as int),
        decreases len - i,
    {
        out.push(s.get_char(i));
        proof {
            assert(s@.subrange(0, i + 1 as int) =~= s@.subrange(0, i as int).push(s@[i as int]));
        }
        i += 1;
    }
    proof {
        assert(s@.subrange(0, s@.len() as int) =~= s@);
    }
    out
}

/// Parses a whole program: one or more lines of statements, which must
/// consume all input.
pub fn program(input: &str) -> (r: Result<Program, ParseError>)
    ensures
        ({
            let sp = p_program(input@);
            match r {
                Ok(prog) => sp == PRes::<Seq<StatementV>>::Parsed(input@.len() as int, prog@),
                Err(e) => (if e.hard {
                    sp is Hard
                } else {
                    sp is Soft
                }) && err_meta(e, input@.len() as int, Rule::Program) && (match p_statements(
                    input@,
                    0,
                ) {
                    PRes::Parsed(end, _) => !e.hard && e.position == end,
                    _ => true,
                }),
            }
        }),
{
    let chars = str_to_chars(input);
    match statements_at(&chars, 0) {
        Ok((end, ss)) => {
            if end == chars.len() {
                Ok(Program { statements: ss })
            } else {
                Err(perr(end, false, Rule::Program))
            }
        },
        Err(e) => Err(within(e, Rule::Program)),
    }
}

/// Parses a statement sequence from the start of the input; the pair gives
/// how many characters were consumed and the statements read.
pub fn statements(input: &str) -> (r: Result<(usize, Vec<Statement>), ParseError>)
    ensures
        ({
            let sp = p_statements(input@, 0);
            match r {
                Ok((j, ss)) => j <= input@.len() && sp == PRes::<Seq<StatementV>>::Parsed(
                    j as int,
                    stmts_view(ss@),
                ),
                Err(e) => (if e.hard {
                    sp is Hard
                } else {
                    sp is Soft
                }) && err_meta(e, input@.len() as int, Rule::Program),
            }
        }),
{
    let chars = str_to_chars(input);
    statements_at(&chars, 0)
}

/// Parses one statement from the start of the input.
pub fn statement(input: &str) -> (r: Result<(usize, Statement), ParseError>)
    ensures
        ({
            let sp = p_statement(input@, 0);
            match r {
                Ok((j, st)) => j <= input@.len() && sp == PRes::<StatementV>::Parsed(
                    j as int,
                    st@,
                ),
                Err(e) => (if e.hard {
                    sp is Hard
                } else {
                    sp is Soft
                }) && err_meta(e, input@.len() as int, Rule::Statement),
            }
        }),
{
    let chars = str_to_chars(input);
    statement_at(&chars, 0)
}

/// Parses one definition from the start of the input.
pub fn definition(input: &str) -> (r: Result<(usize, Statement), ParseError>)
    ensures
        ({
            let sp = p_definition(input@, 0);
            match r {
                Ok((j, st)) => j <= input@.len() && sp == PRes::<StatementV>::Parsed(
                    j as int,
                    st@,
                ),
                Err(e) => (if e.hard {
                    sp is Hard
                } else {
                    sp is Soft
                }) && err_meta(e, input@.len() as int, Rule::Definition),
            }
        }),
{
    let chars = str_to_chars(input);
    definition_at(&chars, 0)
}

/// Parses one expression from the start of the input.
pub fn expression(input: &str) -> (r: Result<(usize, Expression), ParseError>)
    ensures
        ({
            let sp = p_expression(input@, 0);
            match r {
                Ok((j, e)) => j <= input@.len() && sp == PRes::<ExpressionV>::Parsed(
                    j as int,
                    e@,
                ),
                Err(e) => (if e.hard {
                    sp is Hard
                } else {
                    sp is Soft
                }) && err_meta(e, input@.len() as int, Rule::Expression),
            }
        }),
{
    let chars = str_to_chars(input);
    expression_at(&chars, 0)
}

/// Parses one procedure (a braced block) from the start of the input.
pub fn procedure(input: &str) -> (r: Result<(usize, Procedure), ParseError>)
    ensures
        ({
            let sp = p_procedure(input@, 0);
            match r {
                Ok((j, p)) => j <= input@.len() && sp == PRes::<Seq<StatementV>>::Parsed(
                    j as int,
                    p@,
                ),
                Err(e) => (if e.hard {
                    sp is Hard
                } else {
                    sp is Soft
                }) && err_meta(e, input@.len() as int, Rule::Procedure),
            }
        }),
{
    let chars = str_to_chars(input);
    match procedure_at(&chars, 0) {
        Ok((j, ss)) => Ok((j, Procedure(ss))),
        Err(e) => Err(e),
    }
}

/// Parses one list literal from the start of the input.
pub fn list(input: &str) -> (r: Result<(usize, Vec<Expression>), ParseError>)
    ensures
        ({
            let sp = p_list(input@, 0);
            match r {
                Ok((j, es)) => j <= input@.len() && sp == PRes::<Seq<ExpressionV>>::Parsed(
                    j as int,
                    exprs_view(es@),
                ),
                Err(e) => (if e.hard {
                    sp is Hard
                } else {
                    sp is Soft
                }) && err_meta(e, input@.len() as int, Rule::List),
            }
        }),
{
    let chars = str_to_chars(input);
    list_at(&chars, 0)
}

/// Parses one builtin token from the start of the input.
pub fn builtin(input: &str) -> (r: Result<(usize, Builtin), ParseError>)
    ensures
        ({
            let sp = p_builtin(input@, 0);
            match r {
                Ok((j, b)) => j <= input@.len() && sp == PRes::<Builtin>::Parsed(j as int, b),
                Err(e) => !e.hard && sp is Soft && err_meta(e, input@.len() as int, Rule::Builtin) && e.position == 0,
            }
        }),
{
    let chars = str_to_chars(input);
    builtin_at(&chars, 0)
}

/// Parses one literal from the start of the input.
pub fn literal(input: &str) -> (r: Result<(usize, Literal), ParseError>)
    ensures
        ({
            let sp = p_literal(input@, 0);
            match r {
                Ok((j, l)) => j <= input@.len() && sp == PRes::<LiteralV>::Parsed(j as int, l@),
                Err(e) => (if e.hard {
                    sp is Hard
                } else {
                    sp is Soft
                }) && err_meta(e, input@.len() as int, Rule::Literal),
            }
        }),
{
    let chars = str_to_chars(input);
    literal_at(&chars, 0)
}

/// Parses one boolean literal from the start of the input.
pub fn bool(input: &str) -> (r: Result<(usize, bool), ParseError>)
    ensures
        ({
            let sp = p_bool(input@, 0);
            match r {
                Ok((j, b)) => j <= input@.len() && sp == PRes::<bool>::Parsed(j as int, b),
                Err(e) => !e.hard && sp is Soft && err_meta(e, input@.len() as int, Rule::Boolean) && e.position == 0,
            }
        }),
{
    let chars = str_to_chars(input);
    bool_at(&chars, 0)
}

/// Parses one string literal from the start of the input; the result is the
/// content between the quotes.
pub fn string(input: &str) -> (r: Result<(usize, String), ParseError>)
    ensures
        ({
            let sp = p_text(input@, 0);
            match r {
                Ok((j, t)) => j <= input@.len() && sp == PRes::<Seq<char>>::Parsed(j as int, t@),
                Err(e) => (if e.hard {
                    sp is Hard
                } else {
                    sp is Soft
                }) && err_meta(e, input@.len() as int, Rule::Text) && (!e.hard ==> e.position == 0) && (e.hard ==> e.position == scan_text(input@, 1)),
            }
        }),
{
    let chars = str_to_chars(input);
    text_at(&chars, 0)
}

/// Parses one identifier from the start of the input.
pub fn identifier(input: &str) -> (r: Result<(usize, String), ParseError>)
    ensures
        ({
            let sp = p_identifier(input@, 0);
            match r {
                Ok((j, w)) => j <= input@.len() && sp == PRes::<Seq<char>>::Parsed(j as int, w@),
                Err(e) => !e.hard && sp is Soft && err_meta(e, input@.len() as int, Rule::Identifier) && e.position == 0,
            }
        }),
{
    let chars = str_to_chars(input);
    identifier_at(&chars, 0)
}

} // verus!
