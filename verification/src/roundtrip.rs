//! Parsing is a left inverse of display formatting: parsing the rendered
//! form of a value reproduces an equal value, for every value whose
//! rendering the grammar can read back (its texts hold no quote or
//! backslash, its procedure bodies hold no runtime values, no boolean or
//! negative-number statements, and no words that collide with keywords or
//! builtin tokens).
use vstd::prelude::*;
use crate::ast::{builtin_token, Builtin};
use crate::model::{value_of_expr, ExpressionV, LiteralV, StatementV, ValueV};
use crate::parser::{
    digit_of, is_alnum, is_alpha, is_digit, is_multispace, is_space, p_bool, p_builtin,
    p_builtin_from, p_definition, p_expr_list, p_expr_list_more, p_expression, p_identifier,
    p_line, p_lines, p_lines_more, p_list, p_literal, p_number, p_procedure, p_statement,
    p_statements, p_stmt_list, p_stmt_list_more, p_text, scan_alnums, scan_alphas, scan_digits, scan_text, skip_multispaces, skip_spaces, tag_at, PRes,
};
use crate::text::{
    block_text, bool_text, dec_digits, digit_char, exprs_items, expr_text, int_text, lit_text,
    quoted_text, stmts_items, stmt_text, value_text, values_items,
};

verus! {

/// The position ends the input or holds a plain space.
pub open spec fn boundary_at(s: Seq<char>, i: int) -> bool {
    i == s.len() || (0 <= i < s.len() && s[i] == ' ')
}

/// The text stands at position `i` of `s`.
pub open spec fn text_at(s: Seq<char>, i: int, t: Seq<char>) -> bool {
    0 <= i && i + t.len() <= s.len() && s.subrange(i, i + t.len()) == t
}

/// A tag fails wherever one of its characters differs from the input.
proof fn lemma_tag_differs(s: Seq<char>, i: int, t: Seq<char>, k: int)
    requires
        0 <= k < t.len(),
        i + k >= s.len() || s[i + k] != t[k],
        0 <= i,
    ensures
        !tag_at(s, i, t),
{
    if tag_at(s, i, t) {
        assert(s.subrange(i, i + t.len())[k] == s[i + k]);
    }
}

/// A tag holds wherever its text stands.
proof fn lemma_tag_holds(s: Seq<char>, i: int, t: Seq<char>)
    requires
        text_at(s, i, t),
    ensures
        tag_at(s, i, t),
{
}

/// The decimal digits of a number are digits, and there is at least one.
proof fn lemma_dec_digits_digits(n: nat)
    ensures
        dec_digits(n).len() >= 1,
        forall|k: int| 0 <= k < dec_digits(n).len() ==> is_digit(#[trigger] dec_digits(n)[k]),
    decreases n,
{
    if n >= 10 {
        lemma_dec_digits_digits(n / 10);
    }
}

/// Reading back a rendered digit run yields the number.
proof fn lemma_digits_val_eq(s: Seq<char>, i: int, n: nat)
    requires
        text_at(s, i, dec_digits(n)),
    ensures
        digits_val(s, i, i + dec_digits(n).len()) == n,
    decreases n,
{
    lemma_dec_digits_digits(n);
    let l = dec_digits(n).len() as int;
    if n < 10 {
        assert(s[i] == dec_digits(n)[0]) by {
            assert(s.subrange(i, i + 1)[0] == s[i]);
        }
        assert(digits_val(s, i, i) == 0);
        assert(digits_val(s, i, i + 1) == digit_of(s[i]));
    } else {
        lemma_dec_digits_digits(n / 10);
        let l0 = dec_digits(n / 10).len() as int;
        assert(text_at(s, i, dec_digits(n / 10))) by {
            assert(forall|k: int|
                0 <= k < l ==> #[trigger] s[i + k] == dec_digits(n)[k]) by {
                assert(forall|k: int|
                    0 <= k < l ==> s.subrange(i, i + l)[k] == #[trigger] s[i + k]);
            }
            assert(s.subrange(i, i + l0) =~= dec_digits(n / 10));
        }
        lemma_digits_val_eq(s, i, n / 10);
        assert(s[i + l - 1] == dec_digits(n)[l - 1]) by {
            assert(s.subrange(i, i + l)[l - 1] == s[i + l - 1]);
        }
        assert(dec_digits(n)[l - 1] == digit_char((n % 10) as int));
        assert(digits_val(s, i, i + l) == digits_val(s, i, i + l - 1) * 10 + digit_of(
            s[i + l - 1],
        ));
        assert(digit_of(digit_char((n % 10) as int)) == n % 10);
        assert(digits_val(s, i, i + l) == (n / 10) * 10 + n % 10);
    }
}

use crate::parser::digits_val;

/// A digit run ends exactly where the digits end.
proof fn lemma_scan_digits_run(s: Seq<char>, i: int, j: int)
    requires
        0 <= i <= j <= s.len(),
        forall|q: int| i <= q < j ==> is_digit(#[trigger] s[q]),
        j == s.len() || !is_digit(s[j]),
    ensures
        scan_digits(s, i) == j,
    decreases j - i,
{
    if i < j {
        lemma_scan_digits_run(s, i + 1, j);
    }
}

/// A text-content run ends exactly at the first quote or backslash.
proof fn lemma_scan_text_run(s: Seq<char>, i: int, j: int)
    requires
        0 <= i <= j <= s.len(),
        forall|q: int| i <= q < j ==> #[trigger] s[q] != '"' && s[q] != '\\',
        j == s.len() || s[j] == '"' || s[j] == '\\',
    ensures
        scan_text(s, i) == j,
    decreases j - i,
{
    if i < j {
        lemma_scan_text_run(s, i + 1, j);
    }
}

/// A letter run ends exactly where the letters end.
proof fn lemma_scan_alphas_run(s: Seq<char>, i: int, j: int)
    requires
        0 <= i <= j <= s.len(),
        forall|q: int| i <= q < j ==> is_alpha(#[trigger] s[q]),
        j == s.len() || !is_alpha(s[j]),
    ensures
        scan_alphas(s, i) == j,
    decreases j - i,
{
    if i < j {
        lemma_scan_alphas_run(s, i + 1, j);
    }
}

/// A letter-or-digit run ends exactly where such characters end.
proof fn lemma_scan_alnums_run(s: Seq<char>, i: int, j: int)
    requires
        0 <= i <= j <= s.len(),
        forall|q: int| i <= q < j ==> is_alnum(#[trigger] s[q]),
        j == s.len() || !is_alnum(s[j]),
    ensures
        scan_alnums(s, i) == j,
    decreases j - i,
{
    if i < j {
        lemma_scan_alnums_run(s, i + 1, j);
    }
}

/// Whitespace skipping stops where no whitespace stands.
proof fn lemma_skip_multispaces_stop(s: Seq<char>, i: int)
    requires
        i >= s.len() || i < 0 || !is_multispace(s[i]),
    ensures
        skip_multispaces(s, i) == i,
{
}

/// Whitespace skipping over one space stops right after it.
proof fn lemma_skip_multispaces_one(s: Seq<char>, i: int)
    requires
        0 <= i < s.len(),
        s[i] == ' ',
        i + 1 == s.len() || !is_multispace(s[i + 1]),
    ensures
        skip_multispaces(s, i) == i + 1,
{
    assert(skip_multispaces(s, i) == skip_multispaces(s, i + 1));
}

/// Space skipping stops where no space stands.
proof fn lemma_skip_spaces_stop(s: Seq<char>, i: int)
    requires
        i >= s.len() || i < 0 || !is_space(s[i]),
    ensures
        skip_spaces(s, i) == i,
{
}

/// Space skipping over one space stops right after it.
proof fn lemma_skip_spaces_one(s: Seq<char>, i: int)
    requires
        0 <= i < s.len(),
        s[i] == ' ',
        i + 1 == s.len() || !is_space(s[i + 1]),
    ensures
        skip_spaces(s, i) == i + 1,
{
    assert(skip_spaces(s, i) == skip_spaces(s, i + 1));
}

/// A rendered number, followed by a boundary, parses back to itself.
proof fn lemma_number_roundtrip(s: Seq<char>, i: int, n: int)
    requires
        i64::MIN <= n <= i64::MAX,
        text_at(s, i, int_text(n)),
        boundary_at(s, i + int_text(n).len()),
    ensures
        p_number(s, i) == PRes::<int>::Parsed(i + int_text(n).len(), n),
{
    let l = int_text(n).len() as int;
    if n >= 0 {
        lemma_dec_digits_digits(n as nat);
        assert(s[i] == int_text(n)[0]) by {
            assert(s.subrange(i, i + l)[0] == s[i]);
        }
        assert(is_digit(s[i]));
        assert(s[i] != '-' && s[i] != '+');
        assert forall|q: int| i <= q < i + l implies is_digit(#[trigger] s[q]) by {
            assert(s.subrange(i, i + l)[q - i] == s[q]);
            assert(is_digit(dec_digits(n as nat)[q - i]));
        }
        lemma_scan_digits_run(s, i, i + l);
        lemma_digits_val_eq(s, i, n as nat);
    } else {
        lemma_dec_digits_digits((-n) as nat);
        assert(s[i] == int_text(n)[0]) by {
            assert(s.subrange(i, i + l)[0] == s[i]);
        }
        assert(s[i] == '-');
        assert(text_at(s, i + 1, dec_digits((-n) as nat))) by {
            assert forall|k: int|
                0 <= k < l - 1 implies #[trigger] s.subrange(i + 1, i + l)[k] == dec_digits(
                (-n) as nat,
            )[k] by {
                assert(s.subrange(i + 1, i + l)[k] == s[i + 1 + k]);
                assert(s.subrange(i, i + l)[k + 1] == s[i + 1 + k]);
            }
            assert(s.subrange(i + 1, i + l) =~= dec_digits((-n) as nat));
        }
        assert forall|q: int| i + 1 <= q < i + l implies is_digit(#[trigger] s[q]) by {
            assert(s.subrange(i + 1, i + l)[q - i - 1] == s[q]);
            assert(is_digit(dec_digits((-n) as nat)[q - i - 1]));
        }
        lemma_scan_digits_run(s, i + 1, i + l);
        lemma_digits_val_eq(s, i + 1, (-n) as nat);
    }
}

/// Texts the grammar can read back: at least one character, none of them a
/// quote or a backslash.
pub open spec fn text_ok(t: Seq<char>) -> bool {
    t.len() >= 1 && forall|k: int| 0 <= k < t.len() ==> #[trigger] t[k] != '"' && t[k] != '\\'
}

/// A rendered string literal parses back to its content.
proof fn lemma_text_roundtrip(s: Seq<char>, i: int, t: Seq<char>)
    requires
        text_ok(t),
        text_at(s, i, quoted_text(t)),
    ensures
        p_text(s, i) == PRes::<Seq<char>>::Parsed(i + t.len() + 2, t),
{
    let l = t.len() as int;
    assert(s[i] == '"') by {
        assert(s.subrange(i, i + l + 2)[0] == s[i]);
    }
    assert(s[i + l + 1] == '"') by {
        assert(s.subrange(i, i + l + 2)[l + 1] == s[i + l + 1]);
    }
    assert forall|q: int| i + 1 <= q < i + 1 + l implies #[trigger] s[q] != '"' && s[q]
        != '\\' by {
        assert(s.subrange(i, i + l + 2)[q - i] == s[q]);
        assert(quoted_text(t)[q - i] == t[q - i - 1]);
        assert(t[q - i - 1] != '"' && t[q - i - 1] != '\\');
    }
    lemma_scan_text_run(s, i + 1, i + 1 + l);
    assert(s.subrange(i + 1, i + 1 + l) =~= t) by {
        assert forall|k: int|
            0 <= k < l implies #[trigger] s.subrange(i + 1, i + 1 + l)[k] == t[k] by {
            assert(s.subrange(i + 1, i + 1 + l)[k] == s[i + 1 + k]);
            assert(s.subrange(i, i + l + 2)[k + 1] == s[i + 1 + k]);
            assert(quoted_text(t)[k + 1] == t[k]);
        }
    }
}

/// A rendered boolean parses back to itself.
proof fn lemma_bool_roundtrip(s: Seq<char>, i: int, b: bool)
    requires
        text_at(s, i, bool_text(b)),
    ensures
        p_bool(s, i) == PRes::<bool>::Parsed(i + bool_text(b).len(), b),
{
    let l = bool_text(b).len() as int;
    assert(s[i] == bool_text(b)[0]) by {
        assert(s.subrange(i, i + l)[0] == s[i]);
    }
    if b {
        lemma_tag_differs(s, i, seq!['f', 'a', 'l', 's', 'e'], 0);
        lemma_tag_holds(s, i, seq!['t', 'r', 'u', 'e']);
        assert(s.subrange(i, i + 4) =~= seq!['t', 'r', 'u', 'e']);
    } else {
        lemma_tag_holds(s, i, seq!['f', 'a', 'l', 's', 'e']);
        assert(s.subrange(i, i + 5) =~= seq!['f', 'a', 'l', 's', 'e']);
    }
}

/// Literals the grammar can read back.
pub open spec fn lit_ok(l: LiteralV) -> bool {
    match l {
        LiteralV::Bool(_) => true,
        LiteralV::Number(n) => i64::MIN <= n <= i64::MAX,
        LiteralV::Text(t) => text_ok(t),
    }
}

/// A rendered literal, followed by a boundary, parses back to itself.
proof fn lemma_literal_roundtrip(s: Seq<char>, i: int, l: LiteralV)
    requires
        lit_ok(l),
        text_at(s, i, lit_text(l)),
        boundary_at(s, i + lit_text(l).len()),
    ensures
        p_literal(s, i) == PRes::<LiteralV>::Parsed(i + lit_text(l).len(), l),
{
    let ln = lit_text(l).len() as int;
    assert(s[i] == lit_text(l)[0]) by {
        assert(s.subrange(i, i + ln)[0] == s[i]);
    }
    match l {
        LiteralV::Number(n) => {
            lemma_number_roundtrip(s, i, n);
        },
        LiteralV::Text(t) => {
            assert(s[i] == '"');
            assert(!is_digit('"'));
            assert(scan_digits(s, i) == i);
            lemma_text_roundtrip(s, i, t);
        },
        LiteralV::Bool(b) => {
            assert(bool_text(b)[0] == 't' || bool_text(b)[0] == 'f');
            assert(s[i] == 't' || s[i] == 'f');
            assert(!is_digit(s[i]) && s[i] != '-' && s[i] != '+');
            assert(scan_digits(s, i) == i);
            lemma_bool_roundtrip(s, i, b);
        },
    }
}

/// A rendered builtin token, followed by a boundary, parses back to that
/// builtin: wherever one token is a prefix of another, the trial order makes
/// the longer one win, and the boundary stops any longer token from
/// matching.
pub proof fn lemma_builtin_roundtrip(s: Seq<char>, i: int, b: Builtin)
    requires
        text_at(s, i, builtin_token(b)),
        boundary_at(s, i + builtin_token(b).len()),
    ensures
        p_builtin(s, i) == PRes::<Builtin>::Parsed(i + builtin_token(b).len(), b),
{
    reveal_with_fuel(p_builtin_from, 27);
    match b {
            Builtin::Add => {
                assert(s[i + 0] == '+') by {
                    assert(s.subrange(i, i + 1)[0] == s[i + 0]);
                }
                lemma_tag_holds(s, i, builtin_token(b));
            },
            Builtin::Sub => {
                assert(s[i + 0] == '-') by {
                    assert(s.subrange(i, i + 1)[0] == s[i + 0]);
                }
                lemma_tag_differs(s, i, seq!['+'], 0);
                lemma_tag_holds(s, i, builtin_token(b));
            },
            Builtin::Mul => {
                assert(s[i + 0] == '*') by {
                    assert(s.subrange(i, i + 1)[0] == s[i + 0]);
                }
                lemma_tag_differs(s, i, seq!['+'], 0);
                lemma_tag_differs(s, i, seq!['-'], 0);
                lemma_tag_holds(s, i, builtin_token(b));
            },
            Builtin::Div => {
                assert(s[i + 0] == '/') by {
                    assert(s.subrange(i, i + 1)[0] == s[i + 0]);
                }
                lemma_tag_differs(s, i, seq!['+'], 0);
                lemma_tag_differs(s, i, seq!['-'], 0);
                lemma_tag_differs(s, i, seq!['*'], 0);
                lemma_tag_holds(s, i, builtin_token(b));
            },
            Builtin::Eq => {
                assert(s[i + 0] == '=') by {
                    assert(s.subrange(i, i + 1)[0] == s[i + 0]);
                }
                lemma_tag_differs(s, i, seq!['+'], 0);
                lemma_tag_differs(s, i, seq!['-'], 0);
                lemma_tag_differs(s, i, seq!['*'], 0);
                lemma_tag_differs(s, i, seq!['/'], 0);
                lemma_tag_holds(s, i, builtin_token(b));
            },
            Builtin::Neg => {
                assert(s[i + 0] == '!') by {
                    assert(s.subrange(i, i + 1)[0] == s[i + 0]);
                }
                lemma_tag_differs(s, i, seq!['+'], 0);
                lemma_tag_differs(s, i, seq!['-'], 0);
                lemma_tag_differs(s, i, seq!['*'], 0);
                lemma_tag_differs(s, i, seq!['/'], 0);
                lemma_tag_differs(s, i, seq!['='], 0);
                lemma_tag_holds(s, i, builtin_token(b));
            },
            Builtin::Le => {
                assert(s[i + 0] == '<') by {
                    assert(s.subrange(i, i + 2)[0] == s[i + 0]);
                }
                assert(s[i + 1] == '=') by {
                    assert(s.subrange(i, i + 2)[1] == s[i + 1]);
                }
                lemma_tag_differs(s, i, seq!['+'], 0);
                lemma_tag_differs(s, i, seq!['-'], 0);
                lemma_tag_differs(s, i, seq!['*'], 0);
                lemma_tag_differs(s, i, seq!['/'], 0);
                lemma_tag_differs(s, i, seq!['='], 0);
                lemma_tag_differs(s, i, seq!['!'], 0);
                lemma_tag_holds(s, i, builtin_token(b));
            },
            Builtin::Lt => {
                assert(s[i + 0] == '<') by {
                    assert(s.subrange(i, i + 1)[0] == s[i + 0]);
                }
                lemma_tag_differs(s, i, seq!['+'], 0);
                lemma_tag_differs(s, i, seq!['-'], 0);
                lemma_tag_differs(s, i, seq!['*'], 0);
                lemma_tag_differs(s, i, seq!['/'], 0);
                lemma_tag_differs(s, i, seq!['='], 0);
                lemma_tag_differs(s, i, seq!['!'], 0);
                lemma_tag_differs(s, i, seq!['<', '='], 1);
                lemma_tag_holds(s, i, builtin_token(b));
            },
            Builtin::Ge => {
                assert(s[i + 0] == '>') by {
                    assert(s.subrange(i, i + 2)[0] == s[i + 0]);
                }
                assert(s[i + 1] == '=') by {
                    assert(s.subrange(i, i + 2)[1] == s[i + 1]);
                }
                lemma_tag_differs(s, i, seq!['+'], 0);
                lemma_tag_differs(s, i, seq!['-'], 0);
                lemma_tag_differs(s, i, seq!['*'], 0);
                lemma_tag_differs(s, i, seq!['/'], 0);
                lemma_tag_differs(s, i, seq!['='], 0);
                lemma_tag_differs(s, i, seq!['!'], 0);
                lemma_tag_differs(s, i, seq!['<', '='], 0);
                lemma_tag_differs(s, i, seq!['<'], 0);
                lemma_tag_holds(s, i, builtin_token(b));
            },
            Builtin::Gt => {
                assert(s[i + 0] == '>') by {
                    assert(s.subrange(i, i + 1)[0] == s[i + 0]);
                }
                lemma_tag_differs(s, i, seq!['+'], 0);
                lemma_tag_differs(s, i, seq!['-'], 0);
                lemma_tag_differs(s, i, seq!['*'], 0);
                lemma_tag_differs(s, i, seq!['/'], 0);
                lemma_tag_differs(s, i, seq!['='], 0);
                lemma_tag_differs(s, i, seq!['!'], 0);
                lemma_tag_differs(s, i, seq!['<', '='], 0);
                lemma_tag_differs(s, i, seq!['<'], 0);
                lemma_tag_differs(s, i, seq!['>', '='], 1);
                lemma_tag_holds(s, i, builtin_token(b));
            },
            Builtin::Swap => {
                assert(s[i + 0] == 's') by {
                    assert(s.subrange(i, i + 4)[0] == s[i + 0]);
                }
                assert(s[i + 1] == 'w') by {
                    assert(s.subrange(i, i + 4)[1] == s[i + 1]);
                }
                assert(s[i + 2] == 'a') by {
                    assert(s.subrange(i, i + 4)[2] == s[i + 2]);
                }
                assert(s[i + 3] == 'p') by {
                    assert(s.subrange(i, i + 4)[3] == s[i + 3]);
                }
                lemma_tag_differs(s, i, seq!['+'], 0);
                lemma_tag_differs(s, i, seq!['-'], 0);
                lemma_tag_differs(s, i, seq!['*'], 0);
                lemma_tag_differs(s, i, seq!['/'], 0);
                lemma_tag_differs(s, i, seq!['='], 0);
                lemma_tag_differs(s, i, seq!['!'], 0);
                lemma_tag_differs(s, i, seq!['<', '='], 0);
                lemma_tag_differs(s, i, seq!['<'], 0);
                lemma_tag_differs(s, i, seq!['>', '='], 0);
                lemma_tag_differs(s, i, seq!['>'], 0);
                lemma_tag_holds(s, i, builtin_token(b));
            },
            Builtin::Drop => {
                assert(s[i + 0] == 'd') by {
                    assert(s.subrange(i, i + 4)[0] == s[i + 0]);
                }
                assert(s[i + 1] == 'r') by {
                    assert(s.subrange(i, i + 4)[1] == s[i + 1]);
                }
                assert(s[i + 2] == 'o') by {
                    assert(s.subrange(i, i + 4)[2] == s[i + 2]);
                }
                assert(s[i + 3] == 'p') by {
                    assert(s.subrange(i, i + 4)[3] == s[i + 3]);
                }
                lemma_tag_differs(s, i, seq!['+'], 0);
                lemma_tag_differs(s, i, seq!['-'], 0);
                lemma_tag_differs(s, i, seq!['*'], 0);
                lemma_tag_differs(s, i, seq!['/'], 0);
                lemma_tag_differs(s, i, seq!['='], 0);
                lemma_tag_differs(s, i, seq!['!'], 0);
                lemma_tag_differs(s, i, seq!['<', '='], 0);
                lemma_tag_differs(s, i, seq!['<'], 0);
                lemma_tag_differs(s, i, seq!['>', '='], 0);
                lemma_tag_differs(s, i, seq!['>'], 0);
                lemma_tag_differs(s, i, seq!['s', 'w', 'a', 'p'], 0);
                lemma_tag_holds(s, i, builtin_token(b));
            },
            Builtin::Drop2 => {
                assert(s[i + 0] == '2') by {
                    assert(s.subrange(i, i + 5)[0] == s[i + 0]);
                }
                assert(s[i + 1] == 'd') by {
                    assert(s.subrange(i, i + 5)[1] == s[i + 1]);
                }
                assert(s[i + 2] == 'r') by {
                    assert(s.subrange(i, i + 5)[2] == s[i + 2]);
                }
                assert(s[i + 3] == 'o') by {
                    assert(s.subrange(i, i + 5)[3] == s[i + 3]);
                }
                assert(s[i + 4] == 'p') by {
                    assert(s.subrange(i, i + 5)[4] == s[i + 4]);
                }
                lemma_tag_differs(s, i, seq!['+'], 0);
                lemma_tag_differs(s, i, seq!['-'], 0);
                lemma_tag_differs(s, i, seq!['*'], 0);
                lemma_tag_differs(s, i, seq!['/'], 0);
                lemma_tag_differs(s, i, seq!['='], 0);
                lemma_tag_differs(s, i, seq!['!'], 0);
                lemma_tag_differs(s, i, seq!['<', '='], 0);
                lemma_tag_differs(s, i, seq!['<'], 0);
                lemma_tag_differs(s, i, seq!['>', '='], 0);
                lemma_tag_differs(s, i, seq!['>'], 0);
                lemma_tag_differs(s, i, seq!['s', 'w', 'a', 'p'], 0);
                lemma_tag_differs(s, i, seq!['d', 'r', 'o', 'p'], 0);
                lemma_tag_holds(s, i, builtin_token(b));
            },
            Builtin::Drop3 => {
                assert(s[i + 0] == '3') by {
                    assert(s.subrange(i, i + 5)[0] == s[i + 0]);
                }
                assert(s[i + 1] == 'd') by {
                    assert(s.subrange(i, i + 5)[1] == s[i + 1]);
                }
                assert(s[i + 2] == 'r') by {
                    assert(s.subrange(i, i + 5)[2] == s[i + 2]);
                }
                assert(s[i + 3] == 'o') by {
                    assert(s.subrange(i, i + 5)[3] == s[i + 3]);
                }
                assert(s[i + 4] == 'p') by {
                    assert(s.subrange(i, i + 5)[4] == s[i + 4]);
                }
                lemma_tag_differs(s, i, seq!['+'], 0);
                lemma_tag_differs(s, i, seq!['-'], 0);
                lemma_tag_differs(s, i, seq!['*'], 0);
                lemma_tag_differs(s, i, seq!['/'], 0);
                lemma_tag_differs(s, i, seq!['='], 0);
                lemma_tag_differs(s, i, seq!['!'], 0);
                lemma_tag_differs(s, i, seq!['<', '='], 0);
                lemma_tag_differs(s, i, seq!['<'], 0);
                lemma_tag_differs(s, i, seq!['>', '='], 0);
                lemma_tag_differs(s, i, seq!['>'], 0);
                lemma_tag_differs(s, i, seq!['s', 'w', 'a', 'p'], 0);
                lemma_tag_differs(s, i, seq!['d', 'r', 'o', 'p'], 0);
                lemma_tag_differs(s, i, seq!['2', 'd', 'r', 'o', 'p'], 0);
                lemma_tag_holds(s, i, builtin_token(b));
            },
            Builtin::Over => {
                assert(s[i + 0] == 'o') by {
                    assert(s.subrange(i, i + 4)[0] == s[i + 0]);
                }
                assert(s[i + 1] == 'v') by {
                    assert(s.subrange(i, i + 4)[1] == s[i + 1]);
                }
                assert(s[i + 2] == 'e') by {
                    assert(s.subrange(i, i + 4)[2] == s[i + 2]);
                }
                assert(s[i + 3] == 'r') by {
                    assert(s.subrange(i, i + 4)[3] == s[i + 3]);
                }
                lemma_tag_differs(s, i, seq!['+'], 0);
                lemma_tag_differs(s, i, seq!['-'], 0);
                lemma_tag_differs(s, i, seq!['*'], 0);
                lemma_tag_differs(s, i, seq!['/'], 0);
                lemma_tag_differs(s, i, seq!['='], 0);
                lemma_tag_differs(s, i, seq!['!'], 0);
                lemma_tag_differs(s, i, seq!['<', '='], 0);
                lemma_tag_differs(s, i, seq!['<'], 0);
                lemma_tag_differs(s, i, seq!['>', '='], 0);
                lemma_tag_differs(s, i, seq!['>'], 0);
                lemma_tag_differs(s, i, seq!['s', 'w', 'a', 'p'], 0);
                lemma_tag_differs(s, i, seq!['d', 'r', 'o', 'p'], 0);
                lemma_tag_differs(s, i, seq!['2', 'd', 'r', 'o', 'p'], 0);
                lemma_tag_differs(s, i, seq!['3', 'd', 'r', 'o', 'p'], 0);
                lemma_tag_holds(s, i, builtin_token(b));
            },
            Builtin::Eval => {
                assert(s[i + 0] == 'e') by {
                    assert(s.subrange(i, i + 4)[0] == s[i + 0]);
                }
                assert(s[i + 1] == 'v') by {
                    assert(s.subrange(i, i + 4)[1] == s[i + 1]);
                }
                assert(s[i + 2] == 'a') by {
                    assert(s.subrange(i, i + 4)[2] == s[i + 2]);
                }
                assert(s[i + 3] == 'l') by {
                    assert(s.subrange(i, i + 4)[3] == s[i + 3]);
                }
                lemma_tag_differs(s, i, seq!['+'], 0);
                lemma_tag_differs(s, i, seq!['-'], 0);
                lemma_tag_differs(s, i, seq!['*'], 0);
                lemma_tag_differs(s, i, seq!['/'], 0);
                lemma_tag_differs(s, i, seq!['='], 0);
                lemma_tag_differs(s, i, seq!['!'], 0);
                lemma_tag_differs(s, i, seq!['<', '='], 0);
                lemma_tag_differs(s, i, seq!['<'], 0);
                lemma_tag_differs(s, i, seq!['>', '='], 0);
                lemma_tag_differs(s, i, seq!['>'], 0);
                lemma_tag_differs(s, i, seq!['s', 'w', 'a', 'p'], 0);
                lemma_tag_differs(s, i, seq!['d', 'r', 'o', 'p'], 0);
                lemma_tag_differs(s, i, seq!['2', 'd', 'r', 'o', 'p'], 0);
                lemma_tag_differs(s, i, seq!['3', 'd', 'r', 'o', 'p'], 0);
                lemma_tag_differs(s, i, seq!['o', 'v', 'e', 'r'], 0);
                lemma_tag_holds(s, i, builtin_token(b));
            },
            Builtin::Dupd => {
                assert(s[i + 0] == 'd') by {
                    assert(s.subrange(i, i + 4)[0] == s[i + 0]);
                }
                assert(s[i + 1] == 'u') by {
                    assert(s.subrange(i, i + 4)[1] == s[i + 1]);
                }
                assert(s[i + 2] == 'p') by {
                    assert(s.subrange(i, i + 4)[2] == s[i + 2]);
                }
                assert(s[i + 3] == 'd') by {
                    assert(s.subrange(i, i + 4)[3] == s[i + 3]);
                }
                lemma_tag_differs(s, i, seq!['+'], 0);
                lemma_tag_differs(s, i, seq!['-'], 0);
                lemma_tag_differs(s, i, seq!['*'], 0);
                lemma_tag_differs(s, i, seq!['/'], 0);
                lemma_tag_differs(s, i, seq!['='], 0);
                lemma_tag_differs(s, i, seq!['!'], 0);
                lemma_tag_differs(s, i, seq!['<', '='], 0);
                lemma_tag_differs(s, i, seq!['<'], 0);
                lemma_tag_differs(s, i, seq!['>', '='], 0);
                lemma_tag_differs(s, i, seq!['>'], 0);
                lemma_tag_differs(s, i, seq!['s', 'w', 'a', 'p'], 0);
                lemma_tag_differs(s, i, seq!['d', 'r', 'o', 'p'], 1);
                lemma_tag_differs(s, i, seq!['2', 'd', 'r', 'o', 'p'], 0);
                lemma_tag_differs(s, i, seq!['3', 'd', 'r', 'o', 'p'], 0);
                lemma_tag_differs(s, i, seq!['o', 'v', 'e', 'r'], 0);
                lemma_tag_differs(s, i, seq!['e', 'v', 'a', 'l'], 0);
                lemma_tag_holds(s, i, builtin_token(b));
            },
            Builtin::Dup => {
                assert(s[i + 0] == 'd') by {
                    assert(s.subrange(i, i + 3)[0] == s[i + 0]);
                }
                assert(s[i + 1] == 'u') by {
                    assert(s.subrange(i, i + 3)[1] == s[i + 1]);
                }
                assert(s[i + 2] == 'p') by {
                    assert(s.subrange(i, i + 3)[2] == s[i + 2]);
                }
                lemma_tag_differs(s, i, seq!['+'], 0);
                lemma_tag_differs(s, i, seq!['-'], 0);
                lemma_tag_differs(s, i, seq!['*'], 0);
                lemma_tag_differs(s, i, seq!['/'], 0);
                lemma_tag_differs(s, i, seq!['='], 0);
                lemma_tag_differs(s, i, seq!['!'], 0);
                lemma_tag_differs(s, i, seq!['<', '='], 0);
                lemma_tag_differs(s, i, seq!['<'], 0);
                lemma_tag_differs(s, i, seq!['>', '='], 0);
                lemma_tag_differs(s, i, seq!['>'], 0);
                lemma_tag_differs(s, i, seq!['s', 'w', 'a', 'p'], 0);
                lemma_tag_differs(s, i, seq!['d', 'r', 'o', 'p'], 1);
                lemma_tag_differs(s, i, seq!['2', 'd', 'r', 'o', 'p'], 0);
                lemma_tag_differs(s, i, seq!['3', 'd', 'r', 'o', 'p'], 0);
                lemma_tag_differs(s, i, seq!['o', 'v', 'e', 'r'], 0);
                lemma_tag_differs(s, i, seq!['e', 'v', 'a', 'l'], 0);
                lemma_tag_differs(s, i, seq!['d', 'u', 'p', 'd'], 3);
                lemma_tag_holds(s, i, builtin_token(b));
            },
            Builtin::Dup2 => {
                assert(s[i + 0] == '2') by {
                    assert(s.subrange(i, i + 4)[0] == s[i + 0]);
                }
                assert(s[i + 1] == 'd') by {
                    assert(s.subrange(i, i + 4)[1] == s[i + 1]);
                }
                assert(s[i + 2] == 'u') by {
                    assert(s.subrange(i, i + 4)[2] == s[i + 2]);
                }
                assert(s[i + 3] == 'p') by {
                    assert(s.subrange(i, i + 4)[3] == s[i + 3]);
                }
                lemma_tag_differs(s, i, seq!['+'], 0);
                lemma_tag_differs(s, i, seq!['-'], 0);
                lemma_tag_differs(s, i, seq!['*'], 0);
                lemma_tag_differs(s, i, seq!['/'], 0);
                lemma_tag_differs(s, i, seq!['='], 0);
                lemma_tag_differs(s, i, seq!['!'], 0);
                lemma_tag_differs(s, i, seq!['<', '='], 0);
                lemma_tag_differs(s, i, seq!['<'], 0);
                lemma_tag_differs(s, i, seq!['>', '='], 0);
                lemma_tag_differs(s, i, seq!['>'], 0);
                lemma_tag_differs(s, i, seq!['s', 'w', 'a', 'p'], 0);
                lemma_tag_differs(s, i, seq!['d', 'r', 'o', 'p'], 0);
                lemma_tag_differs(s, i, seq!['2', 'd', 'r', 'o', 'p'], 2);
                lemma_tag_differs(s, i, seq!['3', 'd', 'r', 'o', 'p'], 0);
                lemma_tag_differs(s, i, seq!['o', 'v', 'e', 'r'], 0);
                lemma_tag_differs(s, i, seq!['e', 'v', 'a', 'l'], 0);
                lemma_tag_differs(s, i, seq!['d', 'u', 'p', 'd'], 0);
                lemma_tag_differs(s, i, seq!['d', 'u', 'p'], 0);
                lemma_tag_holds(s, i, builtin_token(b));
            },
            Builtin::Rotl => {
                assert(s[i + 0] == 'r') by {
                    assert(s.subrange(i, i + 4)[0] == s[i + 0]);
                }
                assert(s[i + 1] == 'o') by {
                    assert(s.subrange(i, i + 4)[1] == s[i + 1]);
                }
                assert(s[i + 2] == 't') by {
                    assert(s.subrange(i, i + 4)[2] == s[i + 2]);
                }
                assert(s[i + 3] == 'l') by {
                    assert(s.subrange(i, i + 4)[3] == s[i + 3]);
                }
                lemma_tag_differs(s, i, seq!['+'], 0);
                lemma_tag_differs(s, i, seq!['-'], 0);
                lemma_tag_differs(s, i, seq!['*'], 0);
                lemma_tag_differs(s, i, seq!['/'], 0);
                lemma_tag_differs(s, i, seq!['='], 0);
                lemma_tag_differs(s, i, seq!['!'], 0);
                lemma_tag_differs(s, i, seq!['<', '='], 0);
                lemma_tag_differs(s, i, seq!['<'], 0);
                lemma_tag_differs(s, i, seq!['>', '='], 0);
                lemma_tag_differs(s, i, seq!['>'], 0);
                lemma_tag_differs(s, i, seq!['s', 'w', 'a', 'p'], 0);
                lemma_tag_differs(s, i, seq!['d', 'r', 'o', 'p'], 0);
                lemma_tag_differs(s, i, seq!['2', 'd', 'r', 'o', 'p'], 0);
                lemma_tag_differs(s, i, seq!['3', 'd', 'r', 'o', 'p'], 0);
                lemma_tag_differs(s, i, seq!['o', 'v', 'e', 'r'], 0);
                lemma_tag_differs(s, i, seq!['e', 'v', 'a', 'l'], 0);
                lemma_tag_differs(s, i, seq!['d', 'u', 'p', 'd'], 0);
                lemma_tag_differs(s, i, seq!['d', 'u', 'p'], 0);
                lemma_tag_differs(s, i, seq!['2', 'd', 'u', 'p'], 0);
                lemma_tag_holds(s, i, builtin_token(b));
            },
            Builtin::Rotr => {
                assert(s[i + 0] == 'r') by {
                    assert(s.subrange(i, i + 4)[0] == s[i + 0]);
                }
                assert(s[i + 1] == 'o') by {
                    assert(s.subrange(i, i + 4)[1] == s[i + 1]);
                }
                assert(s[i + 2] == 't') by {
                    assert(s.subrange(i, i + 4)[2] == s[i + 2]);
                }
                assert(s[i + 3] == 'r') by {
                    assert(s.subrange(i, i + 4)[3] == s[i + 3]);
                }
                lemma_tag_differs(s, i, seq!['+'], 0);
                lemma_tag_differs(s, i, seq!['-'], 0);
                lemma_tag_differs(s, i, seq!['*'], 0);
                lemma_tag_differs(s, i, seq!['/'], 0);
                lemma_tag_differs(s, i, seq!['='], 0);
                lemma_tag_differs(s, i, seq!['!'], 0);
                lemma_tag_differs(s, i, seq!['<', '='], 0);
                lemma_tag_differs(s, i, seq!['<'], 0);
                lemma_tag_differs(s, i, seq!['>', '='], 0);
                lemma_tag_differs(s, i, seq!['>'], 0);
                lemma_tag_differs(s, i, seq!['s', 'w', 'a', 'p'], 0);
                lemma_tag_differs(s, i, seq!['d', 'r', 'o', 'p'], 0);
                lemma_tag_differs(s, i, seq!['2', 'd', 'r', 'o', 'p'], 0);
                lemma_tag_differs(s, i, seq!['3', 'd', 'r', 'o', 'p'], 0);
                lemma_tag_differs(s, i, seq!['o', 'v', 'e', 'r'], 0);
                lemma_tag_differs(s, i, seq!['e', 'v', 'a', 'l'], 0);
                lemma_tag_differs(s, i, seq!['d', 'u', 'p', 'd'], 0);
                lemma_tag_differs(s, i, seq!['d', 'u', 'p'], 0);
                lemma_tag_differs(s, i, seq!['2', 'd', 'u', 'p'], 0);
                lemma_tag_differs(s, i, seq!['r', 'o', 't', 'l'], 3);
                lemma_tag_holds(s, i, builtin_token(b));
            },
            Builtin::Keep => {
                assert(s[i + 0] == 'k') by {
                    assert(s.subrange(i, i + 4)[0] == s[i + 0]);
                }
                assert(s[i + 1] == 'e') by {
                    assert(s.subrange(i, i + 4)[1] == s[i + 1]);
                }
                assert(s[i + 2] == 'e') by {
                    assert(s.subrange(i, i + 4)[2] == s[i + 2]);
                }
                assert(s[i + 3] == 'p') by {
                    assert(s.subrange(i, i + 4)[3] == s[i + 3]);
                }
                lemma_tag_differs(s, i, seq!['+'], 0);
                lemma_tag_differs(s, i, seq!['-'], 0);
                lemma_tag_differs(s, i, seq!['*'], 0);
                lemma_tag_differs(s, i, seq!['/'], 0);
                lemma_tag_differs(s, i, seq!['='], 0);
                lemma_tag_differs(s, i, seq!['!'], 0);
                lemma_tag_differs(s, i, seq!['<', '='], 0);
                lemma_tag_differs(s, i, seq!['<'], 0);
                lemma_tag_differs(s, i, seq!['>', '='], 0);
                lemma_tag_differs(s, i, seq!['>'], 0);
                lemma_tag_differs(s, i, seq!['s', 'w', 'a', 'p'], 0);
                lemma_tag_differs(s, i, seq!['d', 'r', 'o', 'p'], 0);
                lemma_tag_differs(s, i, seq!['2', 'd', 'r', 'o', 'p'], 0);
                lemma_tag_differs(s, i, seq!['3', 'd', 'r', 'o', 'p'], 0);
                lemma_tag_differs(s, i, seq!['o', 'v', 'e', 'r'], 0);
                lemma_tag_differs(s, i, seq!['e', 'v', 'a', 'l'], 0);
                lemma_tag_differs(s, i, seq!['d', 'u', 'p', 'd'], 0);
                lemma_tag_differs(s, i, seq!['d', 'u', 'p'], 0);
                lemma_tag_differs(s, i, seq!['2', 'd', 'u', 'p'], 0);
                lemma_tag_differs(s, i, seq!['r', 'o', 't', 'l'], 0);
                lemma_tag_differs(s, i, seq!['r', 'o', 't', 'r'], 0);
                lemma_tag_holds(s, i, builtin_token(b));
            },
            Builtin::Println => {
                assert(s[i + 0] == 'p') by {
                    assert(s.subrange(i, i + 7)[0] == s[i + 0]);
                }
                assert(s[i + 1] == 'r') by {
                    assert(s.subrange(i, i + 7)[1] == s[i + 1]);
                }
                assert(s[i + 2] == 'i') by {
                    assert(s.subrange(i, i + 7)[2] == s[i + 2]);
                }
                assert(s[i + 3] == 'n') by {
                    assert(s.subrange(i, i + 7)[3] == s[i + 3]);
                }
                assert(s[i + 4] == 't') by {
                    assert(s.subrange(i, i + 7)[4] == s[i + 4]);
                }
                assert(s[i + 5] == 'l') by {
                    assert(s.subrange(i, i + 7)[5] == s[i + 5]);
                }
                assert(s[i + 6] == 'n') by {
                    assert(s.subrange(i, i + 7)[6] == s[i + 6]);
                }
                lemma_tag_differs(s, i, seq!['+'], 0);
                lemma_tag_differs(s, i, seq!['-'], 0);
                lemma_tag_differs(s, i, seq!['*'], 0);
                lemma_tag_differs(s, i, seq!['/'], 0);
                lemma_tag_differs(s, i, seq!['='], 0);
                lemma_tag_differs(s, i, seq!['!'], 0);
                lemma_tag_differs(s, i, seq!['<', '='], 0);
                lemma_tag_differs(s, i, seq!['<'], 0);
                lemma_tag_differs(s, i, seq!['>', '='], 0);
                lemma_tag_differs(s, i, seq!['>'], 0);
                lemma_tag_differs(s, i, seq!['s', 'w', 'a', 'p'], 0);
                lemma_tag_differs(s, i, seq!['d', 'r', 'o', 'p'], 0);
                lemma_tag_differs(s, i, seq!['2', 'd', 'r', 'o', 'p'], 0);
                lemma_tag_differs(s, i, seq!['3', 'd', 'r', 'o', 'p'], 0);
                lemma_tag_differs(s, i, seq!['o', 'v', 'e', 'r'], 0);
                lemma_tag_differs(s, i, seq!['e', 'v', 'a', 'l'], 0);
                lemma_tag_differs(s, i, seq!['d', 'u', 'p', 'd'], 0);
                lemma_tag_differs(s, i, seq!['d', 'u', 'p'], 0);
                lemma_tag_differs(s, i, seq!['2', 'd', 'u', 'p'], 0);
                lemma_tag_differs(s, i, seq!['r', 'o', 't', 'l'], 0);
                lemma_tag_differs(s, i, seq!['r', 'o', 't', 'r'], 0);
                lemma_tag_differs(s, i, seq!['k', 'e', 'e', 'p'], 0);
                lemma_tag_holds(s, i, builtin_token(b));
            },
            Builtin::If => {
                assert(s[i + 0] == 'i') by {
                    assert(s.subrange(i, i + 2)[0] == s[i + 0]);
                }
                assert(s[i + 1] == 'f') by {
                    assert(s.subrange(i, i + 2)[1] == s[i + 1]);
                }
                lemma_tag_differs(s, i, seq!['+'], 0);
                lemma_tag_differs(s, i, seq!['-'], 0);
                lemma_tag_differs(s, i, seq!['*'], 0);
                lemma_tag_differs(s, i, seq!['/'], 0);
                lemma_tag_differs(s, i, seq!['='], 0);
                lemma_tag_differs(s, i, seq!['!'], 0);
                lemma_tag_differs(s, i, seq!['<', '='], 0);
                lemma_tag_differs(s, i, seq!['<'], 0);
                lemma_tag_differs(s, i, seq!['>', '='], 0);
                lemma_tag_differs(s, i, seq!['>'], 0);
                lemma_tag_differs(s, i, seq!['s', 'w', 'a', 'p'], 0);
                lemma_tag_differs(s, i, seq!['d', 'r', 'o', 'p'], 0);
                lemma_tag_differs(s, i, seq!['2', 'd', 'r', 'o', 'p'], 0);
                lemma_tag_differs(s, i, seq!['3', 'd', 'r', 'o', 'p'], 0);
                lemma_tag_differs(s, i, seq!['o', 'v', 'e', 'r'], 0);
                lemma_tag_differs(s, i, seq!['e', 'v', 'a', 'l'], 0);
                lemma_tag_differs(s, i, seq!['d', 'u', 'p', 'd'], 0);
                lemma_tag_differs(s, i, seq!['d', 'u', 'p'], 0);
                lemma_tag_differs(s, i, seq!['2', 'd', 'u', 'p'], 0);
                lemma_tag_differs(s, i, seq!['r', 'o', 't', 'l'], 0);
                lemma_tag_differs(s, i, seq!['r', 'o', 't', 'r'], 0);
                lemma_tag_differs(s, i, seq!['k', 'e', 'e', 'p'], 0);
                lemma_tag_differs(s, i, seq!['p', 'r', 'i', 'n', 't', 'l', 'n'], 0);
                lemma_tag_holds(s, i, builtin_token(b));
            },
            Builtin::Nth => {
                assert(s[i + 0] == 'n') by {
                    assert(s.subrange(i, i + 3)[0] == s[i + 0]);
                }
                assert(s[i + 1] == 't') by {
                    assert(s.subrange(i, i + 3)[1] == s[i + 1]);
                }
                assert(s[i + 2] == 'h') by {
                    assert(s.subrange(i, i + 3)[2] == s[i + 2]);
                }
                lemma_tag_differs(s, i, seq!['+'], 0);
                lemma_tag_differs(s, i, seq!['-'], 0);
                lemma_tag_differs(s, i, seq!['*'], 0);
                lemma_tag_differs(s, i, seq!['/'], 0);
                lemma_tag_differs(s, i, seq!['='], 0);
                lemma_tag_differs(s, i, seq!['!'], 0);
                lemma_tag_differs(s, i, seq!['<', '='], 0);
                lemma_tag_differs(s, i, seq!['<'], 0);
                lemma_tag_differs(s, i, seq!['>', '='], 0);
                lemma_tag_differs(s, i, seq!['>'], 0);
                lemma_tag_differs(s, i, seq!['s', 'w', 'a', 'p'], 0);
                lemma_tag_differs(s, i, seq!['d', 'r', 'o', 'p'], 0);
                lemma_tag_differs(s, i, seq!['2', 'd', 'r', 'o', 'p'], 0);
                lemma_tag_differs(s, i, seq!['3', 'd', 'r', 'o', 'p'], 0);
                lemma_tag_differs(s, i, seq!['o', 'v', 'e', 'r'], 0);
                lemma_tag_differs(s, i, seq!['e', 'v', 'a', 'l'], 0);
                lemma_tag_differs(s, i, seq!['d', 'u', 'p', 'd'], 0);
                lemma_tag_differs(s, i, seq!['d', 'u', 'p'], 0);
                lemma_tag_differs(s, i, seq!['2', 'd', 'u', 'p'], 0);
                lemma_tag_differs(s, i, seq!['r', 'o', 't', 'l'], 0);
                lemma_tag_differs(s, i, seq!['r', 'o', 't', 'r'], 0);
                lemma_tag_differs(s, i, seq!['k', 'e', 'e', 'p'], 0);
                lemma_tag_differs(s, i, seq!['p', 'r', 'i', 'n', 't', 'l', 'n'], 0);
                lemma_tag_differs(s, i, seq!['i', 'f'], 0);
                lemma_tag_holds(s, i, builtin_token(b));
            },
    }
}

/// No builtin token starts at a position that ends the input or holds a
/// character no token starts with.
#[verifier::rlimit(100)]
pub proof fn lemma_builtin_soft(s: Seq<char>, i: int)
    requires
        0 <= i,
        i == s.len() || !(s[i] == '!' || s[i] == '*' || s[i] == '+' || s[i] == '-' || s[i] == '/' || s[i] == '2' || s[i] == '3' || s[i] == '<' || s[i] == '=' || s[i] == '>' || s[i] == 'd' || s[i] == 'e' || s[i] == 'i' || s[i] == 'k' || s[i] == 'n' || s[i] == 'o' || s[i] == 'p' || s[i] == 'r' || s[i] == 's'),
    ensures
        p_builtin(s, i) is Soft,
{
    reveal_with_fuel(p_builtin_from, 27);
    lemma_tag_differs(s, i, seq!['+'], 0);
    lemma_tag_differs(s, i, seq!['-'], 0);
    lemma_tag_differs(s, i, seq!['*'], 0);
    lemma_tag_differs(s, i, seq!['/'], 0);
    lemma_tag_differs(s, i, seq!['='], 0);
    lemma_tag_differs(s, i, seq!['!'], 0);
    lemma_tag_differs(s, i, seq!['<', '='], 0);
    lemma_tag_differs(s, i, seq!['<'], 0);
    lemma_tag_differs(s, i, seq!['>', '='], 0);
    lemma_tag_differs(s, i, seq!['>'], 0);
    lemma_tag_differs(s, i, seq!['s', 'w', 'a', 'p'], 0);
    lemma_tag_differs(s, i, seq!['d', 'r', 'o', 'p'], 0);
    lemma_tag_differs(s, i, seq!['2', 'd', 'r', 'o', 'p'], 0);
    lemma_tag_differs(s, i, seq!['3', 'd', 'r', 'o', 'p'], 0);
    lemma_tag_differs(s, i, seq!['o', 'v', 'e', 'r'], 0);
    lemma_tag_differs(s, i, seq!['e', 'v', 'a', 'l'], 0);
    lemma_tag_differs(s, i, seq!['d', 'u', 'p', 'd'], 0);
    lemma_tag_differs(s, i, seq!['d', 'u', 'p'], 0);
    lemma_tag_differs(s, i, seq!['2', 'd', 'u', 'p'], 0);
    lemma_tag_differs(s, i, seq!['r', 'o', 't', 'l'], 0);
    lemma_tag_differs(s, i, seq!['r', 'o', 't', 'r'], 0);
    lemma_tag_differs(s, i, seq!['k', 'e', 'e', 'p'], 0);
    lemma_tag_differs(s, i, seq!['p', 'r', 'i', 'n', 't', 'l', 'n'], 0);
    lemma_tag_differs(s, i, seq!['i', 'f'], 0);
    lemma_tag_differs(s, i, seq!['n', 't', 'h'], 0);
}

/// No builtin token starts at a digit that a digit, a space or the end
/// follows: the digit-led tokens all continue with a letter.
#[verifier::rlimit(100)]
pub proof fn lemma_builtin_soft_digit(s: Seq<char>, i: int)
    requires
        0 <= i < s.len(),
        is_digit(s[i]),
        i + 1 == s.len() || is_digit(s[i + 1]) || s[i + 1] == ' ',
    ensures
        p_builtin(s, i) is Soft,
{
    reveal_with_fuel(p_builtin_from, 27);
    lemma_tag_differs(s, i, seq!['+'], 0);
    lemma_tag_differs(s, i, seq!['-'], 0);
    lemma_tag_differs(s, i, seq!['*'], 0);
    lemma_tag_differs(s, i, seq!['/'], 0);
    lemma_tag_differs(s, i, seq!['='], 0);
    lemma_tag_differs(s, i, seq!['!'], 0);
    lemma_tag_differs(s, i, seq!['<', '='], 0);
    lemma_tag_differs(s, i, seq!['<'], 0);
    lemma_tag_differs(s, i, seq!['>', '='], 0);
    lemma_tag_differs(s, i, seq!['>'], 0);
    lemma_tag_differs(s, i, seq!['s', 'w', 'a', 'p'], 0);
    lemma_tag_differs(s, i, seq!['d', 'r', 'o', 'p'], 0);
    lemma_tag_differs(s, i, seq!['2', 'd', 'r', 'o', 'p'], 1);
    lemma_tag_differs(s, i, seq!['3', 'd', 'r', 'o', 'p'], 1);
    lemma_tag_differs(s, i, seq!['o', 'v', 'e', 'r'], 0);
    lemma_tag_differs(s, i, seq!['e', 'v', 'a', 'l'], 0);
    lemma_tag_differs(s, i, seq!['d', 'u', 'p', 'd'], 0);
    lemma_tag_differs(s, i, seq!['d', 'u', 'p'], 0);
    lemma_tag_differs(s, i, seq!['2', 'd', 'u', 'p'], 1);
    lemma_tag_differs(s, i, seq!['r', 'o', 't', 'l'], 0);
    lemma_tag_differs(s, i, seq!['r', 'o', 't', 'r'], 0);
    lemma_tag_differs(s, i, seq!['k', 'e', 'e', 'p'], 0);
    lemma_tag_differs(s, i, seq!['p', 'r', 'i', 'n', 't', 'l', 'n'], 0);
    lemma_tag_differs(s, i, seq!['i', 'f'], 0);
    lemma_tag_differs(s, i, seq!['n', 't', 'h'], 0);
}

/// Where a letter run ends: everything before is a letter, the next
/// character (if any) is not.
proof fn lemma_scan_alphas_char(s: Seq<char>, i: int)
    requires
        0 <= i <= s.len(),
    ensures
        i <= scan_alphas(s, i) <= s.len(),
        forall|q: int| i <= q < scan_alphas(s, i) ==> is_alpha(#[trigger] s[q]),
        scan_alphas(s, i) < s.len() ==> !is_alpha(s[scan_alphas(s, i)]),
    decreases s.len() - i,
{
    if i < s.len() && is_alpha(s[i]) {
        lemma_scan_alphas_char(s, i + 1);
    }
}

/// Where a letter-or-digit run ends.
proof fn lemma_scan_alnums_char(s: Seq<char>, i: int)
    requires
        0 <= i <= s.len(),
    ensures
        i <= scan_alnums(s, i) <= s.len(),
        forall|q: int| i <= q < scan_alnums(s, i) ==> is_alnum(#[trigger] s[q]),
        scan_alnums(s, i) < s.len() ==> !is_alnum(s[scan_alnums(s, i)]),
    decreases s.len() - i,
{
    if i < s.len() && is_alnum(s[i]) {
        lemma_scan_alnums_char(s, i + 1);
    }
}

/// Identifiers the grammar can read back: a letter or underscore, then
/// letters and digits, then an optional question mark.
pub open spec fn ident_shape(w: Seq<char>) -> bool {
    w.len() >= 1 && (is_alpha(w[0]) || w[0] == '_') && (forall|k: int|
        1 <= k < w.len() ==> is_alnum(#[trigger] w[k]) || (w[k] == '?' && k == w.len() - 1))
}

/// A rendered identifier, followed by a boundary, parses back to itself.
pub proof fn lemma_identifier_roundtrip(s: Seq<char>, i: int, w: Seq<char>)
    requires
        ident_shape(w),
        text_at(s, i, w),
        boundary_at(s, i + w.len()),
    ensures
        p_identifier(s, i) == PRes::<Seq<char>>::Parsed(i + w.len(), w),
{
    let wl = w.len() as int;
    assert forall|k: int| 0 <= k < wl implies #[trigger] s[i + k] == w[k] by {
        assert(s.subrange(i, i + wl)[k] == s[i + k]);
    }
    assert(s[i] == w[0]);
    let j = if is_alpha(s[i]) {
        scan_alphas(s, i)
    } else {
        i + 1
    };
    if is_alpha(s[i]) {
        lemma_scan_alphas_char(s, i);
        assert(j <= i + wl) by {
            if j > i + wl {
                assert(is_alpha(s[i + wl]));
            }
        }
        assert(j > i) by {
            assert(scan_alphas(s, i) == scan_alphas(s, i + 1));
        }
    } else {
        assert(w[0] == '_');
    }
    assert(i < j <= i + wl);
    let k = scan_alnums(s, j);
    lemma_scan_alnums_char(s, j);
    assert(k <= i + wl) by {
        if k > i + wl {
            assert(is_alnum(s[i + wl]));
        }
    }
    let m = if k < s.len() && s[k] == '?' {
        k + 1
    } else {
        k
    };
    if k < i + wl {
        assert(!is_alnum(s[k]));
        assert(s[k] == w[k - i]);
        assert(w[k - i] == '?' && k - i == wl - 1);
        assert(m == i + wl);
    } else {
        assert(k == i + wl);
        if k < s.len() {
            assert(s[k] == ' ');
        }
        assert(m == i + wl);
    }
    assert(s.subrange(i, m) =~= w);
}

/// No statement starts at a closing brace or bracket; the alternatives all
/// fail softly, so an enclosing block or list may close.
pub proof fn lemma_statement_soft_close(s: Seq<char>, i: int)
    requires
        0 <= i < s.len(),
        s[i] == '}' || s[i] == ']',
    ensures
        p_statement(s, i) is Soft,
        p_expression(s, i) is Soft,
{
    lemma_tag_differs(s, i, seq!['d', 'e', 'f'], 0);
    lemma_builtin_soft(s, i);
    assert(!is_alpha(s[i]) && s[i] != '_');
    assert(!is_digit(s[i]) && s[i] != '-' && s[i] != '+');
    assert(scan_digits(s, i) == i);
    lemma_tag_differs(s, i, seq!['f', 'a', 'l', 's', 'e'], 0);
    lemma_tag_differs(s, i, seq!['t', 'r', 'u', 'e'], 0);
    assert(p_literal(s, i) is Soft);
    assert(p_procedure(s, i) is Soft);
    assert(p_list(s, i) is Soft);
}

/// `p` is an initial segment of `w`.
pub open spec fn is_prefix(p: Seq<char>, w: Seq<char>) -> bool {
    p.len() <= w.len() && w.subrange(0, p.len() as int) == p
}

/// Some letter-led builtin token is a prefix of the word, so the builtin
/// alternative would consume it (or its front) first.
pub open spec fn alpha_builtin_prefix(w: Seq<char>) -> bool {
    ||| is_prefix(builtin_token(Builtin::Swap), w)
    ||| is_prefix(builtin_token(Builtin::Drop), w)
    ||| is_prefix(builtin_token(Builtin::Over), w)
    ||| is_prefix(builtin_token(Builtin::Eval), w)
    ||| is_prefix(builtin_token(Builtin::Dup), w)
    ||| is_prefix(builtin_token(Builtin::Rotl), w)
    ||| is_prefix(builtin_token(Builtin::Rotr), w)
    ||| is_prefix(builtin_token(Builtin::Keep), w)
    ||| is_prefix(builtin_token(Builtin::Println), w)
    ||| is_prefix(builtin_token(Builtin::If), w)
    ||| is_prefix(builtin_token(Builtin::Nth), w)
}

/// Words the grammar reads back as the same word: identifier-shaped, no
/// builtin token at their front, and not the definition keyword itself.
pub open spec fn word_ok(w: Seq<char>) -> bool {
    &&& ident_shape(w)
    &&& !alpha_builtin_prefix(w)
    &&& w != seq!['d', 'e', 'f']
}

/// Statements the grammar can read back. Runtime values cannot occur;
/// booleans and negative numbers cannot stand bare (a bare boolean reads
/// back as a word, a leading minus as the subtraction token).
pub open spec fn wf_stmt(st: StatementV) -> bool
    decreases st,
{
    match st {
        StatementV::Expression(e) => wf_expr(e) && (match e {
            ExpressionV::Literal(l) => match l {
                LiteralV::Bool(_) => false,
                LiteralV::Number(n) => n >= 0,
                LiteralV::Text(_) => true,
            },
            _ => true,
        }),
        StatementV::Builtin(_) => true,
        StatementV::Value(_) => false,
        StatementV::Definition { identifier, procedure } => ident_shape(identifier) && wf_stmts(
            procedure,
        ),
        StatementV::Word(w) => word_ok(w),
    }
}

pub open spec fn wf_stmts(ss: Seq<StatementV>) -> bool
    decreases ss,
{
    if ss.len() == 0 {
        true
    } else {
        wf_stmt(ss[0]) && wf_stmts(ss.drop_first())
    }
}

/// Expressions the grammar can read back.
pub open spec fn wf_expr(e: ExpressionV) -> bool
    decreases e,
{
    match e {
        ExpressionV::Literal(l) => lit_ok(l),
        ExpressionV::Procedure(ss) => wf_stmts(ss),
        ExpressionV::List(es) => wf_exprs(es),
    }
}

pub open spec fn wf_exprs(es: Seq<ExpressionV>) -> bool
    decreases es,
{
    if es.len() == 0 {
        true
    } else {
        wf_expr(es[0]) && wf_exprs(es.drop_first())
    }
}

/// Values whose rendering the grammar can read back.
pub open spec fn renderable(v: ValueV) -> bool
    decreases v,
{
    match v {
        ValueV::Bool(_) => true,
        ValueV::Number(n) => i64::MIN <= n <= i64::MAX,
        ValueV::Text(t) => text_ok(t),
        ValueV::Procedure(ss) => wf_stmts(ss),
        ValueV::List(vs) => renderable_values(vs),
    }
}

pub open spec fn renderable_values(vs: Seq<ValueV>) -> bool
    decreases vs,
{
    if vs.len() == 0 {
        true
    } else {
        renderable(vs[0]) && renderable_values(vs.drop_first())
    }
}

/// A rendered statement is nonempty and does not start with whitespace.
proof fn lemma_stmt_text_head(st: StatementV)
    requires
        wf_stmt(st),
    ensures
        stmt_text(st).len() >= 1,
        !is_multispace(stmt_text(st)[0]),
{
    match st {
        StatementV::Expression(e) => {
            lemma_expr_text_head(e);
        },
        StatementV::Builtin(b) => {
            assert(builtin_token(b).len() >= 1 && !is_multispace(builtin_token(b)[0]));
        },
        StatementV::Value(_) => {},
        StatementV::Definition { identifier, procedure } => {},
        StatementV::Word(w) => {},
    }
}

/// A rendered expression is nonempty and does not start with whitespace.
proof fn lemma_expr_text_head(e: ExpressionV)
    requires
        wf_expr(e),
    ensures
        expr_text(e).len() >= 1,
        !is_multispace(expr_text(e)[0]),
{
    match e {
        ExpressionV::Literal(l) => {
            match l {
                LiteralV::Number(n) => {
                    lemma_int_text_head(n);
                },
                _ => {},
            }
        },
        _ => {},
    }
}

/// A rendered number starts with a minus sign or a digit.
proof fn lemma_int_text_head(n: int)
    ensures
        int_text(n).len() >= 1,
        n < 0 ==> int_text(n)[0] == '-',
        n >= 0 ==> is_digit(int_text(n)[0]),
        !is_multispace(int_text(n)[0]),
{
    if n < 0 {
        lemma_dec_digits_digits((-n) as nat);
    } else {
        lemma_dec_digits_digits(n as nat);
        assert(is_digit(dec_digits(n as nat)[0]));
    }
}

/// A tag whose text is not a prefix of the word standing at the position
/// fails there, provided the tag holds no space.
proof fn lemma_tag_fails_not_prefix(s: Seq<char>, i: int, t: Seq<char>, w: Seq<char>)
    requires
        text_at(s, i, w),
        boundary_at(s, i + w.len()),
        !is_prefix(t, w),
        t.len() >= 1,
        forall|k: int| 0 <= k < t.len() ==> #[trigger] t[k] != ' ',
    ensures
        !tag_at(s, i, t),
{
    let wl = w.len() as int;
    let tl = t.len() as int;
    assert forall|k: int| 0 <= k < wl implies #[trigger] s[i + k] == w[k] by {
        assert(s.subrange(i, i + wl)[k] == s[i + k]);
    }
    if tag_at(s, i, t) {
        assert forall|k: int| 0 <= k < tl implies #[trigger] s[i + k] == t[k] by {
            assert(s.subrange(i, i + tl)[k] == s[i + k]);
        }
        if tl <= wl {
            assert(w.subrange(0, tl) =~= t);
        } else {
            if i + wl == s.len() {
                assert(i + tl > s.len());
            } else {
                assert(s[i + wl] == ' ');
                assert(s[i + wl] == t[wl]);
            }
        }
    }
}

/// One character of a text standing in the input.
proof fn lemma_text_at_char(s: Seq<char>, i: int, t: Seq<char>, k: int)
    requires
        text_at(s, i, t),
        0 <= k < t.len(),
    ensures
        s[i + k] == t[k],
{
    assert(s.subrange(i, i + t.len())[k] == s[i + k]);
}

/// A part of a text standing in the input stands there too.
proof fn lemma_text_at_part(s: Seq<char>, i: int, t: Seq<char>, a: int, b: int, part: Seq<char>)
    requires
        text_at(s, i, t),
        0 <= a <= b <= t.len(),
        part == t.subrange(a, b),
    ensures
        text_at(s, i + a, part),
{
    assert forall|k: int| 0 <= k < b - a implies #[trigger] s.subrange(i + a, i + b)[k] == part[k]
        by {
        assert(s.subrange(i + a, i + b)[k] == s[i + a + k]);
        assert(s.subrange(i, i + t.len())[a + k] == s[i + a + k]);
    }
    assert(s.subrange(i + a, i + b) =~= part);
}

/// A rendered statement, followed by a boundary, parses back to itself.
#[verifier::rlimit(100)]
/// A rendered builtin token, followed by a boundary, parses back as that
/// builtin statement.
proof fn lemma_builtin_statement(s: Seq<char>, i: int, b: Builtin)
    requires
        text_at(s, i, builtin_token(b)),
        boundary_at(s, i + builtin_token(b).len()),
    ensures
        p_statement(s, i) == PRes::<StatementV>::Parsed(
            i + builtin_token(b).len(),
            StatementV::Builtin(b),
        ),
{
        match b {
        Builtin::Add => {
            assert(!is_prefix(seq!['d', 'e', 'f'], builtin_token(b)));
        },
        Builtin::Sub => {
            assert(!is_prefix(seq!['d', 'e', 'f'], builtin_token(b)));
        },
        Builtin::Mul => {
            assert(!is_prefix(seq!['d', 'e', 'f'], builtin_token(b)));
        },
        Builtin::Div => {
            assert(!is_prefix(seq!['d', 'e', 'f'], builtin_token(b)));
        },
        Builtin::Eq => {
            assert(!is_prefix(seq!['d', 'e', 'f'], builtin_token(b)));
        },
        Builtin::Neg => {
            assert(!is_prefix(seq!['d', 'e', 'f'], builtin_token(b)));
        },
        Builtin::Le => {
            assert(!is_prefix(seq!['d', 'e', 'f'], builtin_token(b)));
        },
        Builtin::Lt => {
            assert(!is_prefix(seq!['d', 'e', 'f'], builtin_token(b)));
        },
        Builtin::Ge => {
            assert(!is_prefix(seq!['d', 'e', 'f'], builtin_token(b)));
        },
        Builtin::Gt => {
            assert(!is_prefix(seq!['d', 'e', 'f'], builtin_token(b)));
        },
        Builtin::Swap => {
            assert(!is_prefix(seq!['d', 'e', 'f'], builtin_token(b))) by {
                if is_prefix(seq!['d', 'e', 'f'], builtin_token(b)) {
                    assert(builtin_token(b).subrange(0, 3)[0] == builtin_token(b)[0]);
                }
            }
        },
        Builtin::Drop => {
            assert(!is_prefix(seq!['d', 'e', 'f'], builtin_token(b))) by {
                if is_prefix(seq!['d', 'e', 'f'], builtin_token(b)) {
                    assert(builtin_token(b).subrange(0, 3)[1] == builtin_token(b)[1]);
                }
            }
        },
        Builtin::Drop2 => {
            assert(!is_prefix(seq!['d', 'e', 'f'], builtin_token(b))) by {
                if is_prefix(seq!['d', 'e', 'f'], builtin_token(b)) {
                    assert(builtin_token(b).subrange(0, 3)[0] == builtin_token(b)[0]);
                }
            }
        },
        Builtin::Drop3 => {
            assert(!is_prefix(seq!['d', 'e', 'f'], builtin_token(b))) by {
                if is_prefix(seq!['d', 'e', 'f'], builtin_token(b)) {
                    assert(builtin_token(b).subrange(0, 3)[0] == builtin_token(b)[0]);
                }
            }
        },
        Builtin::Over => {
            assert(!is_prefix(seq!['d', 'e', 'f'], builtin_token(b))) by {
                if is_prefix(seq!['d', 'e', 'f'], builtin_token(b)) {
                    assert(builtin_token(b).subrange(0, 3)[0] == builtin_token(b)[0]);
                }
            }
        },
        Builtin::Eval => {
            assert(!is_prefix(seq!['d', 'e', 'f'], builtin_token(b))) by {
                if is_prefix(seq!['d', 'e', 'f'], builtin_token(b)) {
                    assert(builtin_token(b).subrange(0, 3)[0] == builtin_token(b)[0]);
                }
            }
        },
        Builtin::Dupd => {
            assert(!is_prefix(seq!['d', 'e', 'f'], builtin_token(b))) by {
                if is_prefix(seq!['d', 'e', 'f'], builtin_token(b)) {
                    assert(builtin_token(b).subrange(0, 3)[1] == builtin_token(b)[1]);
                }
            }
        },
        Builtin::Dup => {
            assert(!is_prefix(seq!['d', 'e', 'f'], builtin_token(b))) by {
                if is_prefix(seq!['d', 'e', 'f'], builtin_token(b)) {
                    assert(builtin_token(b).subrange(0, 3)[1] == builtin_token(b)[1]);
                }
            }
        },
        Builtin::Dup2 => {
            assert(!is_prefix(seq!['d', 'e', 'f'], builtin_token(b))) by {
                if is_prefix(seq!['d', 'e', 'f'], builtin_token(b)) {
                    assert(builtin_token(b).subrange(0, 3)[0] == builtin_token(b)[0]);
                }
            }
        },
        Builtin::Rotl => {
            assert(!is_prefix(seq!['d', 'e', 'f'], builtin_token(b))) by {
                if is_prefix(seq!['d', 'e', 'f'], builtin_token(b)) {
                    assert(builtin_token(b).subrange(0, 3)[0] == builtin_token(b)[0]);
                }
            }
        },
        Builtin::Rotr => {
            assert(!is_prefix(seq!['d', 'e', 'f'], builtin_token(b))) by {
                if is_prefix(seq!['d', 'e', 'f'], builtin_token(b)) {
                    assert(builtin_token(b).subrange(0, 3)[0] == builtin_token(b)[0]);
                }
            }
        },
        Builtin::Keep => {
            assert(!is_prefix(seq!['d', 'e', 'f'], builtin_token(b))) by {
                if is_prefix(seq!['d', 'e', 'f'], builtin_token(b)) {
                    assert(builtin_token(b).subrange(0, 3)[0] == builtin_token(b)[0]);
                }
            }
        },
        Builtin::Println => {
            assert(!is_prefix(seq!['d', 'e', 'f'], builtin_token(b))) by {
                if is_prefix(seq!['d', 'e', 'f'], builtin_token(b)) {
                    assert(builtin_token(b).subrange(0, 3)[0] == builtin_token(b)[0]);
                }
            }
        },
        Builtin::If => {
            assert(!is_prefix(seq!['d', 'e', 'f'], builtin_token(b)));
        },
        Builtin::Nth => {
            assert(!is_prefix(seq!['d', 'e', 'f'], builtin_token(b))) by {
                if is_prefix(seq!['d', 'e', 'f'], builtin_token(b)) {
                    assert(builtin_token(b).subrange(0, 3)[0] == builtin_token(b)[0]);
                }
            }
        },
        }
        lemma_tag_fails_not_prefix(s, i, seq!['d', 'e', 'f'], builtin_token(b));
        lemma_builtin_roundtrip(s, i, b);

}

#[verifier::rlimit(100)]
/// A rendered definition parses back to itself.
proof fn lemma_definition_statement(s: Seq<char>, i: int, id: Seq<char>, body: Seq<StatementV>)
    requires
        ident_shape(id),
        wf_stmts(body),
        text_at(s, i, stmt_text(StatementV::Definition { identifier: id, procedure: body })),
    ensures
        p_statement(s, i) == PRes::<StatementV>::Parsed(
            i + stmt_text(StatementV::Definition { identifier: id, procedure: body }).len(),
            StatementV::Definition { identifier: id, procedure: body },
        ),
    decreases body, 1nat,
{
    let st = StatementV::Definition { identifier: id, procedure: body };
    let whole = stmt_text(st);
    let wl = whole.len() as int;
        let il = id.len() as int;
        let bl = block_text(body).len() as int;
        lemma_text_at_char(s, i, whole, 0);
        lemma_text_at_char(s, i, whole, 1);
        lemma_text_at_char(s, i, whole, 2);
        lemma_text_at_char(s, i, whole, 3);
        assert(s.subrange(i, i + 3) =~= seq!['d', 'e', 'f']);
        assert(tag_at(s, i, seq!['d', 'e', 'f']));
        assert(whole.subrange(4, 4 + il) =~= id);
        lemma_text_at_part(s, i, whole, 4, 4 + il, id);
        lemma_text_at_char(s, i, whole, 4 + il);
        assert(whole.subrange(5 + il, wl) =~= block_text(body));
        lemma_text_at_part(s, i, whole, 5 + il, wl, block_text(body));
        lemma_text_at_char(s, i, whole, 5 + il);
        assert(s[i + 5 + il] == '{');
        // After `def` one space, then the name.
        lemma_text_at_char(s, i + 4, id, 0);
        assert(!is_multispace(s[i + 4]));
        lemma_skip_multispaces_one(s, i + 3);
        // The name reads back; the following space is its boundary.
        assert(s[i + 4 + il] == ' ');
        lemma_identifier_roundtrip(s, i + 4, id);
        // One space, then the block.
        lemma_skip_multispaces_one(s, i + 4 + il);
        lemma_block_roundtrip(s, i + 5 + il, body);

}

#[verifier::rlimit(100)]
/// A rendered expression that may stand bare as a statement, followed by a
/// boundary, parses back as that expression statement.
proof fn lemma_expression_statement(s: Seq<char>, i: int, e: ExpressionV)
    requires
        wf_expr(e),
        match e {
            ExpressionV::Literal(l) => match l {
                LiteralV::Bool(_) => false,
                LiteralV::Number(n) => n >= 0,
                LiteralV::Text(_) => true,
            },
            _ => true,
        },
        text_at(s, i, expr_text(e)),
        boundary_at(s, i + expr_text(e).len()),
    ensures
        p_statement(s, i) == PRes::<StatementV>::Parsed(
            i + expr_text(e).len(),
            StatementV::Expression(e),
        ),
    decreases e, 1nat,
{
    let tl = expr_text(e).len() as int;
        lemma_expr_text_head(e);
        lemma_text_at_char(s, i, expr_text(e), 0);
        match e {
            ExpressionV::Literal(l) => {
                match l {
                    LiteralV::Number(n) => {
                        lemma_int_text_head(n);
                        assert(is_digit(s[i]));
                        lemma_tag_differs(s, i, seq!['d', 'e', 'f'], 0);
                        if tl >= 2 {
                            lemma_dec_digits_digits(n as nat);
                            lemma_text_at_char(s, i, expr_text(e), 1);
                            assert(is_digit(s[i + 1]));
                        }
                        lemma_builtin_soft_digit(s, i);
                    },
                    LiteralV::Text(_) => {
                        assert(s[i] == '"');
                        lemma_tag_differs(s, i, seq!['d', 'e', 'f'], 0);
                        lemma_builtin_soft(s, i);
                    },
                    LiteralV::Bool(_) => {
                        assert(false);
                    },
                }
            },
            ExpressionV::Procedure(_) => {
                assert(s[i] == '{');
                lemma_tag_differs(s, i, seq!['d', 'e', 'f'], 0);
                lemma_builtin_soft(s, i);
            },
            ExpressionV::List(_) => {
                assert(s[i] == '[');
                lemma_tag_differs(s, i, seq!['d', 'e', 'f'], 0);
                lemma_builtin_soft(s, i);
            },
        }
        assert(!is_alpha(s[i]) && s[i] != '_');
        lemma_expr_roundtrip(s, i, e);

}

/// A rendered statement, followed by a boundary, parses back to itself.
pub proof fn lemma_stmt_roundtrip(s: Seq<char>, i: int, st: StatementV)
    requires
        wf_stmt(st),
        text_at(s, i, stmt_text(st)),
        boundary_at(s, i + stmt_text(st).len()),
    ensures
        p_statement(s, i) == PRes::<StatementV>::Parsed(i + stmt_text(st).len(), st),
    decreases st, 2nat,
{
    match st {
        StatementV::Builtin(b) => {
            lemma_builtin_statement(s, i, b);
        },
        StatementV::Word(w) => {
            lemma_word_statement(s, i, w);
        },
        StatementV::Definition { identifier: id, procedure: body } => {
            lemma_definition_statement(s, i, id, body);
        },
        StatementV::Expression(e) => {
            lemma_expression_statement(s, i, e);
        },
        StatementV::Value(_) => {
            assert(false);
        },
    }
}

/// A rendered word, followed by a boundary, parses back as the same word:
/// no builtin token sits at its front, and the definition keyword either
/// fails to match or fails to find its whitespace.
#[verifier::rlimit(100)]
proof fn lemma_word_statement(s: Seq<char>, i: int, w: Seq<char>)
    requires
        word_ok(w),
        text_at(s, i, w),
        boundary_at(s, i + w.len()),
    ensures
        p_statement(s, i) == PRes::<StatementV>::Parsed(i + w.len(), StatementV::Word(w)),
{
    let wl = w.len() as int;
    lemma_text_at_char(s, i, w, 0);
    // The definition alternative fails softly.
    if is_prefix(seq!['d', 'e', 'f'], w) {
        assert(wl >= 3);
        if wl == 3 {
            assert(w =~= seq!['d', 'e', 'f']) by {
                assert(w.subrange(0, 3) =~= w);
            }
            assert(false);
        }
        assert(tag_at(s, i, seq!['d', 'e', 'f'])) by {
            assert(s.subrange(i, i + 3) =~= w.subrange(0, 3)) by {
                assert(forall|k: int|
                    0 <= k < 3 ==> #[trigger] s.subrange(i, i + 3)[k] == s[i + k]);
                assert(forall|k: int|
                    0 <= k < 3 ==> #[trigger] s.subrange(i, i + wl)[k] == s[i + k]);
            }
        }
        lemma_text_at_char(s, i, w, 3);
        assert(is_alnum(w[3]) || w[3] == '?');
        assert(!is_multispace(s[i + 3]));
        lemma_skip_multispaces_stop(s, i + 3);
    } else {
        lemma_tag_fails_not_prefix(s, i, seq!['d', 'e', 'f'], w);
    }
    // No builtin token matches at the word's front.
    assert(!is_prefix(seq!['+'], w)) by {
        if is_prefix(seq!['+'], w) {
            assert(w.subrange(0, 1)[0] == w[0]);
        }
    }
    lemma_tag_fails_not_prefix(s, i, seq!['+'], w);
    assert(!is_prefix(seq!['-'], w)) by {
        if is_prefix(seq!['-'], w) {
            assert(w.subrange(0, 1)[0] == w[0]);
        }
    }
    lemma_tag_fails_not_prefix(s, i, seq!['-'], w);
    assert(!is_prefix(seq!['*'], w)) by {
        if is_prefix(seq!['*'], w) {
            assert(w.subrange(0, 1)[0] == w[0]);
        }
    }
    lemma_tag_fails_not_prefix(s, i, seq!['*'], w);
    assert(!is_prefix(seq!['/'], w)) by {
        if is_prefix(seq!['/'], w) {
            assert(w.subrange(0, 1)[0] == w[0]);
        }
    }
    lemma_tag_fails_not_prefix(s, i, seq!['/'], w);
    assert(!is_prefix(seq!['='], w)) by {
        if is_prefix(seq!['='], w) {
            assert(w.subrange(0, 1)[0] == w[0]);
        }
    }
    lemma_tag_fails_not_prefix(s, i, seq!['='], w);
    assert(!is_prefix(seq!['!'], w)) by {
        if is_prefix(seq!['!'], w) {
            assert(w.subrange(0, 1)[0] == w[0]);
        }
    }
    lemma_tag_fails_not_prefix(s, i, seq!['!'], w);
    assert(!is_prefix(seq!['<', '='], w)) by {
        if is_prefix(seq!['<', '='], w) {
            assert(w.subrange(0, 2)[0] == w[0]);
        }
    }
    lemma_tag_fails_not_prefix(s, i, seq!['<', '='], w);
    assert(!is_prefix(seq!['<'], w)) by {
        if is_prefix(seq!['<'], w) {
            assert(w.subrange(0, 1)[0] == w[0]);
        }
    }
    lemma_tag_fails_not_prefix(s, i, seq!['<'], w);
    assert(!is_prefix(seq!['>', '='], w)) by {
        if is_prefix(seq!['>', '='], w) {
            assert(w.subrange(0, 2)[0] == w[0]);
        }
    }
    lemma_tag_fails_not_prefix(s, i, seq!['>', '='], w);
    assert(!is_prefix(seq!['>'], w)) by {
        if is_prefix(seq!['>'], w) {
            assert(w.subrange(0, 1)[0] == w[0]);
        }
    }
    lemma_tag_fails_not_prefix(s, i, seq!['>'], w);
    assert(!is_prefix(seq!['s', 'w', 'a', 'p'], w));
    lemma_tag_fails_not_prefix(s, i, seq!['s', 'w', 'a', 'p'], w);
    assert(!is_prefix(seq!['d', 'r', 'o', 'p'], w));
    lemma_tag_fails_not_prefix(s, i, seq!['d', 'r', 'o', 'p'], w);
    assert(!is_prefix(seq!['2', 'd', 'r', 'o', 'p'], w)) by {
        if is_prefix(seq!['2', 'd', 'r', 'o', 'p'], w) {
            assert(w.subrange(0, 5)[0] == w[0]);
        }
    }
    lemma_tag_fails_not_prefix(s, i, seq!['2', 'd', 'r', 'o', 'p'], w);
    assert(!is_prefix(seq!['3', 'd', 'r', 'o', 'p'], w)) by {
        if is_prefix(seq!['3', 'd', 'r', 'o', 'p'], w) {
            assert(w.subrange(0, 5)[0] == w[0]);
        }
    }
    lemma_tag_fails_not_prefix(s, i, seq!['3', 'd', 'r', 'o', 'p'], w);
    assert(!is_prefix(seq!['o', 'v', 'e', 'r'], w));
    lemma_tag_fails_not_prefix(s, i, seq!['o', 'v', 'e', 'r'], w);
    assert(!is_prefix(seq!['e', 'v', 'a', 'l'], w));
    lemma_tag_fails_not_prefix(s, i, seq!['e', 'v', 'a', 'l'], w);
    assert(!is_prefix(seq!['d', 'u', 'p', 'd'], w)) by {
        if is_prefix(seq!['d', 'u', 'p', 'd'], w) {
            assert(w.subrange(0, 3) =~= seq!['d', 'u', 'p']) by {
                assert(forall|k: int| 0 <= k < 3 ==> #[trigger] w.subrange(0, 3)[k] == w.subrange(0, 4)[k]);
            }
        }
    }
    lemma_tag_fails_not_prefix(s, i, seq!['d', 'u', 'p', 'd'], w);
    assert(!is_prefix(seq!['d', 'u', 'p'], w));
    lemma_tag_fails_not_prefix(s, i, seq!['d', 'u', 'p'], w);
    assert(!is_prefix(seq!['2', 'd', 'u', 'p'], w)) by {
        if is_prefix(seq!['2', 'd', 'u', 'p'], w) {
            assert(w.subrange(0, 4)[0] == w[0]);
        }
    }
    lemma_tag_fails_not_prefix(s, i, seq!['2', 'd', 'u', 'p'], w);
    assert(!is_prefix(seq!['r', 'o', 't', 'l'], w));
    lemma_tag_fails_not_prefix(s, i, seq!['r', 'o', 't', 'l'], w);
    assert(!is_prefix(seq!['r', 'o', 't', 'r'], w));
    lemma_tag_fails_not_prefix(s, i, seq!['r', 'o', 't', 'r'], w);
    assert(!is_prefix(seq!['k', 'e', 'e', 'p'], w));
    lemma_tag_fails_not_prefix(s, i, seq!['k', 'e', 'e', 'p'], w);
    assert(!is_prefix(seq!['p', 'r', 'i', 'n', 't', 'l', 'n'], w));
    lemma_tag_fails_not_prefix(s, i, seq!['p', 'r', 'i', 'n', 't', 'l', 'n'], w);
    assert(!is_prefix(seq!['i', 'f'], w));
    lemma_tag_fails_not_prefix(s, i, seq!['i', 'f'], w);
    assert(!is_prefix(seq!['n', 't', 'h'], w));
    lemma_tag_fails_not_prefix(s, i, seq!['n', 't', 'h'], w);
    assert(p_builtin(s, i) is Soft) by {
        reveal_with_fuel(p_builtin_from, 27);
    }
    lemma_identifier_roundtrip(s, i, w);
}

/// A rendered expression, followed by a boundary, parses back to itself.
#[verifier::rlimit(100)]
pub proof fn lemma_expr_roundtrip(s: Seq<char>, i: int, e: ExpressionV)
    requires
        wf_expr(e),
        text_at(s, i, expr_text(e)),
        boundary_at(s, i + expr_text(e).len()),
    ensures
        p_expression(s, i) == PRes::<ExpressionV>::Parsed(i + expr_text(e).len(), e),
    decreases e, 0nat,
{
    match e {
        ExpressionV::Literal(l) => {
            lemma_literal_roundtrip(s, i, l);
        },
        ExpressionV::Procedure(ss) => {
            lemma_text_at_char(s, i, expr_text(e), 0);
            assert(s[i] == '{');
            assert(scan_digits(s, i) == i);
            lemma_tag_differs(s, i, seq!['f', 'a', 'l', 's', 'e'], 0);
            lemma_tag_differs(s, i, seq!['t', 'r', 'u', 'e'], 0);
            assert(p_literal(s, i) is Soft);
            lemma_block_roundtrip(s, i, ss);
        },
        ExpressionV::List(es) => {
            lemma_text_at_char(s, i, expr_text(e), 0);
            assert(s[i] == '[');
            assert(scan_digits(s, i) == i);
            lemma_tag_differs(s, i, seq!['f', 'a', 'l', 's', 'e'], 0);
            lemma_tag_differs(s, i, seq!['t', 'r', 'u', 'e'], 0);
            assert(p_literal(s, i) is Soft);
            assert(p_procedure(s, i) is Soft);
            lemma_list_roundtrip(s, i, es);
        },
    }
}

/// A rendered block parses back to its statements.
#[verifier::rlimit(100)]
/// Layout of a rendered nonempty block: an opening brace, a space, the
/// first statement, the remaining items, a space, and the closing brace.
proof fn lemma_block_pieces(s: Seq<char>, i: int, ss: Seq<StatementV>)
    requires
        ss.len() > 0,
        wf_stmts(ss),
        text_at(s, i, block_text(ss)),
    ensures
        block_text(ss).len() == 3 + stmts_items(ss).len(),
        stmts_items(ss).len() == 1 + stmt_text(ss[0]).len() + stmts_items(ss.drop_first()).len(),
        s[i] == '{',
        s[i + 1] == ' ',
        text_at(s, i + 2, stmt_text(ss[0])),
        !is_multispace(s[i + 2]),
        s[i + 2 + stmt_text(ss[0]).len()] == ' ',
        text_at(s, i + 2 + stmt_text(ss[0]).len(), stmts_items(ss.drop_first())),
        s[i + 1 + stmts_items(ss).len()] == ' ',
        s[i + 2 + stmts_items(ss).len()] == '}',
{
    let items = stmts_items(ss);
    let il = items.len() as int;
    let st0 = ss[0];
    let sl = stmt_text(st0).len() as int;
    assert(items == seq![' '] + stmt_text(st0) + stmts_items(ss.drop_first()));
    lemma_text_at_char(s, i, block_text(ss), 0);
    assert(block_text(ss).subrange(1, 1 + il) =~= items);
    lemma_text_at_part(s, i, block_text(ss), 1, 1 + il, items);
    lemma_text_at_char(s, i, block_text(ss), 1 + il);
    lemma_text_at_char(s, i, block_text(ss), 2 + il);
    lemma_text_at_char(s, i + 1, items, 0);
    lemma_stmt_text_head(st0);
    assert(items.subrange(1, 1 + sl) =~= stmt_text(st0));
    lemma_text_at_part(s, i + 1, items, 1, 1 + sl, stmt_text(st0));
    lemma_text_at_char(s, i + 2, stmt_text(st0), 0);
    assert(items.subrange(1 + sl, il) =~= stmts_items(ss.drop_first()));
    lemma_text_at_part(s, i + 1, items, 1 + sl, il, stmts_items(ss.drop_first()));
    assert(s[i + 2 + sl] == ' ') by {
        if ss.drop_first().len() == 0 {
            assert(1 + sl == il);
        } else {
            lemma_stmts_items_head_space(ss.drop_first());
            lemma_text_at_char(s, i + 1, items, 1 + sl);
        }
    }
}

#[verifier::rlimit(100)]
/// A rendered block parses back to its statements.
pub proof fn lemma_block_roundtrip(s: Seq<char>, i: int, ss: Seq<StatementV>)
    requires
        wf_stmts(ss),
        text_at(s, i, block_text(ss)),
    ensures
        p_procedure(s, i) == PRes::<Seq<StatementV>>::Parsed(i + block_text(ss).len(), ss),
    decreases ss, 0nat,
{
    let bl = block_text(ss).len() as int;
    lemma_text_at_char(s, i, block_text(ss), 0);
    assert(s[i] == '{');
    if ss.len() == 0 {
        assert(bl == 2);
        lemma_text_at_char(s, i, block_text(ss), 1);
        assert(s[i + 1] == '}');
        lemma_skip_multispaces_stop(s, i + 1);
        lemma_statement_soft_close(s, i + 1);
        lemma_skip_spaces_stop(s, i + 1);
        assert(p_stmt_list(s, i + 1) == PRes::<Seq<StatementV>>::Parsed(i + 1, Seq::empty()));
        assert(p_line(s, i + 1) == PRes::<Seq<StatementV>>::Parsed(i + 1, Seq::empty()));
        assert(p_lines_more(s, i + 1) == PRes::<Seq<StatementV>>::Parsed(i + 1, Seq::empty()));
        assert(Seq::<StatementV>::empty() + Seq::<StatementV>::empty()
            =~= Seq::<StatementV>::empty());
        assert(p_lines(s, i + 1) == PRes::<Seq<StatementV>>::Parsed(i + 1, Seq::empty()));
        assert(p_statements(s, i + 1) == PRes::<Seq<StatementV>>::Parsed(i + 1, Seq::empty()));
        assert(ss =~= Seq::<StatementV>::empty());
    } else {
        lemma_block_pieces(s, i, ss);
        let items = stmts_items(ss);
        let il = items.len() as int;
        let st0 = ss[0];
        let sl = stmt_text(st0).len() as int;
        lemma_skip_multispaces_one(s, i + 1);
        lemma_stmt_roundtrip(s, i + 2, st0);
        lemma_stmts_items_more_roundtrip(s, i + 2 + sl, ss.drop_first());
        assert(p_stmt_list(s, i + 2) == PRes::<Seq<StatementV>>::Parsed(
            i + 1 + il,
            seq![st0] + ss.drop_first(),
        ));
        assert(seq![st0] + ss.drop_first() =~= ss);
        lemma_skip_spaces_one(s, i + 1 + il);
        assert(p_line(s, i + 2) == PRes::<Seq<StatementV>>::Parsed(i + 2 + il, ss));
        lemma_skip_multispaces_stop(s, i + 2 + il);
        assert(p_lines_more(s, i + 2 + il) == PRes::<Seq<StatementV>>::Parsed(
            i + 2 + il,
            Seq::empty(),
        ));
        assert(ss + Seq::<StatementV>::empty() =~= ss);
        assert(p_lines(s, i + 2) == PRes::<Seq<StatementV>>::Parsed(i + 2 + il, ss));
        assert(p_statements(s, i + 1) == PRes::<Seq<StatementV>>::Parsed(i + 2 + il, ss));
    }
}


/// A nonempty item sequence starts with its separating space.
proof fn lemma_stmts_items_head_space(ss: Seq<StatementV>)
    requires
        ss.len() > 0,
    ensures
        stmts_items(ss).len() >= 1,
        stmts_items(ss)[0] == ' ',
{
}

/// A nonempty expression item sequence starts with its separating space.
proof fn lemma_exprs_items_head_space(es: Seq<ExpressionV>)
    requires
        es.len() > 0,
    ensures
        exprs_items(es).len() >= 1,
        exprs_items(es)[0] == ' ',
{
}

/// Rendered space-separated statements, followed by a space and a closing
/// brace, parse back as further list items ending before that space.
#[verifier::rlimit(100)]
proof fn lemma_stmts_items_more_roundtrip(s: Seq<char>, i: int, ss: Seq<StatementV>)
    requires
        wf_stmts(ss),
        text_at(s, i, stmts_items(ss)),
        i + stmts_items(ss).len() + 1 < s.len(),
        s[i + stmts_items(ss).len()] == ' ',
        s[i + stmts_items(ss).len() + 1] == '}',
    ensures
        p_stmt_list_more(s, i) == PRes::<Seq<StatementV>>::Parsed(i + stmts_items(ss).len(), ss),
    decreases ss, 0nat,
{
    let il = stmts_items(ss).len() as int;
    if ss.len() == 0 {
        assert(il == 0);
        lemma_skip_spaces_one(s, i);
        lemma_statement_soft_close(s, i + 1);
        assert(ss =~= Seq::<StatementV>::empty());
    } else {
        let st0 = ss[0];
        let sl = stmt_text(st0).len() as int;
        assert(stmts_items(ss) == seq![' '] + stmt_text(st0) + stmts_items(ss.drop_first()));
        lemma_text_at_char(s, i, stmts_items(ss), 0);
        assert(s[i] == ' ');
        lemma_stmt_text_head(st0);
        assert(stmts_items(ss).subrange(1, 1 + sl) =~= stmt_text(st0));
        lemma_text_at_part(s, i, stmts_items(ss), 1, 1 + sl, stmt_text(st0));
        lemma_text_at_char(s, i + 1, stmt_text(st0), 0);
        assert(!is_multispace(s[i + 1]));
        lemma_skip_spaces_one(s, i);
        assert(s[i + 1 + sl] == ' ') by {
            if ss.drop_first().len() == 0 {
                assert(1 + sl == il);
            } else {
                lemma_stmts_items_head_space(ss.drop_first());
                lemma_text_at_char(s, i, stmts_items(ss), 1 + sl);
            }
        }
        lemma_stmt_roundtrip(s, i + 1, st0);
        assert(stmts_items(ss).subrange(1 + sl, il) =~= stmts_items(ss.drop_first()));
        lemma_text_at_part(s, i, stmts_items(ss), 1 + sl, il, stmts_items(ss.drop_first()));
        lemma_stmts_items_more_roundtrip(s, i + 1 + sl, ss.drop_first());
        assert(seq![st0] + ss.drop_first() =~= ss);
    }
}

/// A rendered list parses back to its expressions.
#[verifier::rlimit(100)]
pub proof fn lemma_list_roundtrip(s: Seq<char>, i: int, es: Seq<ExpressionV>)
    requires
        wf_exprs(es),
        text_at(s, i, expr_text(ExpressionV::List(es))),
    ensures
        p_list(s, i) == PRes::<Seq<ExpressionV>>::Parsed(
            i + expr_text(ExpressionV::List(es)).len(),
            es,
        ),
    decreases es, 0nat,
{
    let whole = expr_text(ExpressionV::List(es));
    let wl = whole.len() as int;
    lemma_text_at_char(s, i, whole, 0);
    assert(s[i] == '[');
    if es.len() == 0 {
        assert(wl == 2);
        lemma_text_at_char(s, i, whole, 1);
        assert(s[i + 1] == ']');
        lemma_skip_multispaces_stop(s, i + 1);
        lemma_statement_soft_close(s, i + 1);
        assert(p_expr_list(s, i + 1) == PRes::<Seq<ExpressionV>>::Parsed(i + 1, Seq::empty()));
        assert(es =~= Seq::<ExpressionV>::empty());
    } else {
        let items = exprs_items(es);
        let il = items.len() as int;
        assert(wl == 1 + il + 2);
        assert(whole.subrange(1, 1 + il) =~= items);
        lemma_text_at_part(s, i, whole, 1, 1 + il, items);
        lemma_text_at_char(s, i, whole, 1 + il);
        lemma_text_at_char(s, i, whole, 2 + il);
        assert(s[i + 1 + il] == ' ');
        assert(s[i + 2 + il] == ']');
        let e0 = es[0];
        let el = expr_text(e0).len() as int;
        assert(items == seq![' '] + expr_text(e0) + exprs_items(es.drop_first()));
        lemma_text_at_char(s, i + 1, items, 0);
        assert(s[i + 1] == ' ');
        lemma_expr_text_head(e0);
        assert(items.subrange(1, 1 + el) =~= expr_text(e0));
        lemma_text_at_part(s, i + 1, items, 1, 1 + el, expr_text(e0));
        lemma_text_at_char(s, i + 2, expr_text(e0), 0);
        assert(!is_multispace(s[i + 2]));
        lemma_skip_multispaces_one(s, i + 1);
        assert(s[i + 2 + el] == ' ') by {
            if es.drop_first().len() == 0 {
                assert(1 + el == il);
            } else {
                lemma_exprs_items_head_space(es.drop_first());
                lemma_text_at_char(s, i + 1, items, 1 + el);
            }
        }
        lemma_expr_roundtrip(s, i + 2, e0);
        assert(items.subrange(1 + el, il) =~= exprs_items(es.drop_first()));
        lemma_text_at_part(s, i + 1, items, 1 + el, il, exprs_items(es.drop_first()));
        lemma_exprs_items_more_roundtrip(s, i + 2 + el, es.drop_first());
        assert(p_expr_list(s, i + 2) == PRes::<Seq<ExpressionV>>::Parsed(
            i + 1 + il,
            seq![e0] + es.drop_first(),
        ));
        assert(seq![e0] + es.drop_first() =~= es);
        lemma_skip_multispaces_one(s, i + 1 + il);
    }
}

/// Rendered space-separated expressions, followed by a space and a closing
/// bracket, parse back as further list items ending before that space.
#[verifier::rlimit(100)]
proof fn lemma_exprs_items_more_roundtrip(s: Seq<char>, i: int, es: Seq<ExpressionV>)
    requires
        wf_exprs(es),
        text_at(s, i, exprs_items(es)),
        i + exprs_items(es).len() + 1 < s.len(),
        s[i + exprs_items(es).len()] == ' ',
        s[i + exprs_items(es).len() + 1] == ']',
    ensures
        p_expr_list_more(s, i) == PRes::<Seq<ExpressionV>>::Parsed(i + exprs_items(es).len(), es),
    decreases es, 0nat,
{
    let il = exprs_items(es).len() as int;
    if es.len() == 0 {
        assert(il == 0);
        lemma_skip_multispaces_one(s, i);
        lemma_statement_soft_close(s, i + 1);
        assert(es =~= Seq::<ExpressionV>::empty());
    } else {
        let e0 = es[0];
        let el = expr_text(e0).len() as int;
        assert(exprs_items(es) == seq![' '] + expr_text(e0) + exprs_items(es.drop_first()));
        lemma_text_at_char(s, i, exprs_items(es), 0);
        assert(s[i] == ' ');
        lemma_expr_text_head(e0);
        assert(exprs_items(es).subrange(1, 1 + el) =~= expr_text(e0));
        lemma_text_at_part(s, i, exprs_items(es), 1, 1 + el, expr_text(e0));
        lemma_text_at_char(s, i + 1, expr_text(e0), 0);
        assert(!is_multispace(s[i + 1]));
        lemma_skip_multispaces_one(s, i);
        assert(s[i + 1 + el] == ' ') by {
            if es.drop_first().len() == 0 {
                assert(1 + el == il);
            } else {
                lemma_exprs_items_head_space(es.drop_first());
                lemma_text_at_char(s, i, exprs_items(es), 1 + el);
            }
        }
        lemma_expr_roundtrip(s, i + 1, e0);
        assert(exprs_items(es).subrange(1 + el, il) =~= exprs_items(es.drop_first()));
        lemma_text_at_part(s, i, exprs_items(es), 1 + el, il, exprs_items(es.drop_first()));
        lemma_exprs_items_more_roundtrip(s, i + 1 + el, es.drop_first());
        assert(seq![e0] + es.drop_first() =~= es);
    }
}

/// The expression whose evaluation yields a value: scalars become their
/// literals, a procedure becomes a quotation, a list the list of its
/// elements' expressions.
pub open spec fn expr_of_value(v: ValueV) -> ExpressionV
    decreases v, 1nat,
{
    match v {
        ValueV::Bool(b) => ExpressionV::Literal(LiteralV::Bool(b)),
        ValueV::Number(n) => ExpressionV::Literal(LiteralV::Number(n)),
        ValueV::Text(t) => ExpressionV::Literal(LiteralV::Text(t)),
        ValueV::Procedure(ss) => ExpressionV::Procedure(ss),
        ValueV::List(vs) => ExpressionV::List(exprs_of_values(vs)),
    }
}

pub open spec fn exprs_of_values(vs: Seq<ValueV>) -> Seq<ExpressionV>
    decreases vs, 0nat,
{
    if vs.len() == 0 {
        Seq::empty()
    } else {
        seq![expr_of_value(vs[0])] + exprs_of_values(vs.drop_first())
    }
}

/// Evaluating the expression of a value gives the value back.
proof fn lemma_value_of_expr_of(v: ValueV)
    ensures
        value_of_expr(expr_of_value(v)) == v,
    decreases v, 1nat,
{
    match v {
        ValueV::List(vs) => {
            lemma_values_of_exprs_of(vs);
        },
        _ => {},
    }
}

proof fn lemma_values_of_exprs_of(vs: Seq<ValueV>)
    ensures
        crate::model::values_of_exprs(exprs_of_values(vs)) == vs,
    decreases vs, 0nat,
{
    if vs.len() == 0 {
        assert(crate::model::values_of_exprs(exprs_of_values(vs)) =~= vs);
    } else {
        lemma_value_of_expr_of(vs[0]);
        lemma_values_of_exprs_of(vs.drop_first());
        assert(exprs_of_values(vs).drop_first() =~= exprs_of_values(vs.drop_first()));
        assert(crate::model::values_of_exprs(exprs_of_values(vs)) =~= vs);
    }
}

/// A value and its expression render to the same text.
proof fn lemma_value_text_is_expr_text(v: ValueV)
    ensures
        expr_text(expr_of_value(v)) == value_text(v),
    decreases v, 1nat,
{
    match v {
        ValueV::List(vs) => {
            lemma_values_items_are_exprs_items(vs);
        },
        _ => {},
    }
}

proof fn lemma_values_items_are_exprs_items(vs: Seq<ValueV>)
    ensures
        exprs_items(exprs_of_values(vs)) == values_items(vs),
        exprs_of_values(vs).len() == vs.len(),
    decreases vs, 0nat,
{
    if vs.len() == 0 {
        assert(exprs_items(exprs_of_values(vs)) =~= values_items(vs));
    } else {
        lemma_value_text_is_expr_text(vs[0]);
        lemma_values_items_are_exprs_items(vs.drop_first());
        assert(exprs_of_values(vs).drop_first() =~= exprs_of_values(vs.drop_first()));
        assert(exprs_items(exprs_of_values(vs)) =~= values_items(vs));
    }
}

/// The expression of a renderable value is well formed for the grammar.
proof fn lemma_expr_of_value_wf(v: ValueV)
    requires
        renderable(v),
    ensures
        wf_expr(expr_of_value(v)),
    decreases v, 1nat,
{
    match v {
        ValueV::List(vs) => {
            lemma_exprs_of_values_wf(vs);
        },
        _ => {},
    }
}

proof fn lemma_exprs_of_values_wf(vs: Seq<ValueV>)
    requires
        renderable_values(vs),
    ensures
        wf_exprs(exprs_of_values(vs)),
    decreases vs, 0nat,
{
    if vs.len() > 0 {
        lemma_expr_of_value_wf(vs[0]);
        lemma_exprs_of_values_wf(vs.drop_first());
        assert(exprs_of_values(vs).drop_first() =~= exprs_of_values(vs.drop_first()));
    }
}

/// Parsing is a left inverse of display formatting: parsing the rendered
/// form of any renderable value as an expression consumes the whole text
/// and evaluates back to an equal value.
pub proof fn lemma_parse_of_render(v: ValueV)
    requires
        renderable(v),
    ensures
        ({
            let t = value_text(v);
            &&& p_expression(t, 0) is Parsed
            &&& p_expression(t, 0)->Parsed_0 == t.len()
            &&& value_of_expr(p_expression(t, 0)->Parsed_1) == v
        }),
{
    let t = value_text(v);
    let e = expr_of_value(v);
    lemma_value_text_is_expr_text(v);
    lemma_expr_of_value_wf(v);
    lemma_value_of_expr_of(v);
    assert(t.subrange(0, t.len() as int) =~= t);
    assert(text_at(t, 0, expr_text(e)));
    lemma_expr_roundtrip(t, 0, e);
}

} // verus!
