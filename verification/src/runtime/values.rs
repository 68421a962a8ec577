//! Decimal text of integer values, and the scalar rendering of values.
//!
//! The interpreter renders integers and booleans as text when printing and
//! when interpolating format strings, and reads integers back from token
//! text and from the `int` builtin. Both directions are specified against
//! the mathematical decimal notation [`int_str`].
use vstd::prelude::*;

use vstd::string::StringExecFns;

use crate::parsing::parser::Val;

verus! {

/// The decimal digit character for `d` (meaningful for `0 <= d < 10`).
pub open spec fn digit_char(d: int) -> char {
    if d == 0 {
        '0'
    } else if d == 1 {
        '1'
    } else if d == 2 {
        '2'
    } else if d == 3 {
        '3'
    } else if d == 4 {
        '4'
    } else if d == 5 {
        '5'
    } else if d == 6 {
        '6'
    } else if d == 7 {
        '7'
    } else if d == 8 {
        '8'
    } else {
        '9'
    }
}

/// The decimal digits of a non-negative integer, most significant first,
/// without leading zeros (except for `0` itself).
pub open spec fn dec_digits(n: int) -> Seq<char>
    decreases n,
{
    if n < 10 {
        seq![digit_char(n)]
    } else {
        dec_digits(n / 10).push(digit_char(n % 10))
    }
}

/// The decimal notation of an integer: a minus sign for negative values,
/// then the digits of the magnitude.
pub open spec fn int_str(n: int) -> Seq<char> {
    if n < 0 {
        seq!['-'] + dec_digits(-n)
    } else {
        dec_digits(n)
    }
}

/// Whether `c` is a decimal digit.
pub open spec fn is_digit(c: char) -> bool {
    48 <= c as int <= 57
}

/// The numeric value of a digit character.
pub open spec fn digit_val(c: char) -> int {
    c as int - 48
}

/// The value of a digit run read as a decimal number.
pub open spec fn digits_val(s: Seq<char>) -> int
    decreases s.len(),
{
    if s.len() == 0 {
        0
    } else {
        digits_val(s.drop_last()) * 10 + digit_val(s.last())
    }
}

/// Whether every character of `s` is a decimal digit.
pub open spec fn all_digits(s: Seq<char>) -> bool {
    forall|i: int| 0 <= i < s.len() ==> is_digit(#[trigger] s[i])
}

/// Whether `s` spells an integer: an optional minus sign, then at least
/// one digit and nothing else.
pub open spec fn is_int_literal(s: Seq<char>) -> bool {
    if s.len() > 0 && s[0] == '-' {
        s.len() > 1 && all_digits(s.subrange(1, s.len() as int))
    } else {
        s.len() > 0 && all_digits(s)
    }
}

/// The integer spelled by `s` (meaningful when `is_int_literal(s)`).
pub open spec fn int_literal_val(s: Seq<char>) -> int {
    if s.len() > 0 && s[0] == '-' {
        -digits_val(s.subrange(1, s.len() as int))
    } else {
        digits_val(s)
    }
}

/// A runtime failure. Evaluation is fail-fast: the first error aborts the
/// run and is reported to the host.
///
/// `ShellRequest` and `ImportRequest` are not failures of the program but
/// requests to the host: the evaluator needs the output of the named shell
/// command, or the parsed tree of the named module, appended to the reply
/// log before the run is repeated. `ShellExecutionFailure` is raised by the
/// host itself when a requested command cannot be run.
#[derive(Debug, PartialEq, Eq)]
pub enum RunError {
    ParseError,
    UndefinedVariable(String),
    UndefinedFunction(String),
    ArityMismatch,
    TypeMismatch,
    DivisionByZero,
    ImportNotFound(String),
    ShellExecutionFailure,
    StackOverflow,
    ShellRequest(String),
    ImportRequest(String),
}

/// The mathematical shape of a runtime failure.
pub ghost enum ErrV {
    ParseError,
    UndefinedVariable(Seq<char>),
    UndefinedFunction(Seq<char>),
    ArityMismatch,
    TypeMismatch,
    DivisionByZero,
    ImportNotFound(Seq<char>),
    ShellExecutionFailure,
    StackOverflow,
    ShellRequest(Seq<char>),
    ImportRequest(Seq<char>),
}

/// The denotation of a runtime failure.
pub open spec fn err_view(e: RunError) -> ErrV {
    match e {
        RunError::ParseError => ErrV::ParseError,
        RunError::UndefinedVariable(s) => ErrV::UndefinedVariable(s@),
        RunError::UndefinedFunction(s) => ErrV::UndefinedFunction(s@),
        RunError::ArityMismatch => ErrV::ArityMismatch,
        RunError::TypeMismatch => ErrV::TypeMismatch,
        RunError::DivisionByZero => ErrV::DivisionByZero,
        RunError::ImportNotFound(s) => ErrV::ImportNotFound(s@),
        RunError::ShellExecutionFailure => ErrV::ShellExecutionFailure,
        RunError::StackOverflow => ErrV::StackOverflow,
        RunError::ShellRequest(s) => ErrV::ShellRequest(s@),
        RunError::ImportRequest(s) => ErrV::ImportRequest(s@),
    }
}

/// The text a scalar value prints as. Arrays are rendered element by
/// element by the evaluator; an unresolved variable reference prints as
/// its name.
pub open spec fn render_scalar(v: Val) -> Seq<char> {
    match v {
        Val::Int(i) => int_str(i),
        Val::Bool(b) => if b {
            "true"@
        } else {
            "false"@
        },
        Val::Str(s) => s,
        Val::Var(n) => n,
        _ => Seq::empty(),
    }
}

/// A digit run's value is never negative.
pub proof fn lemma_digits_val_nonneg(s: Seq<char>)
    requires
        all_digits(s),
    ensures
        digits_val(s) >= 0,
    decreases s.len(),
{
    if s.len() > 0 {
        assert(all_digits(s.drop_last())) by {
            assert forall|i: int| 0 <= i < s.len() - 1 implies is_digit(
                #[trigger] s.drop_last()[i],
            ) by {
                assert(s.drop_last()[i] == s[i]);
            }
        }
        lemma_digits_val_nonneg(s.drop_last());
        assert(is_digit(s.last())) by {
            assert(s.last() == s[s.len() - 1]);
        }
    }
}

/// Reading one more digit never shrinks the value.
pub proof fn lemma_digits_val_extend(s: Seq<char>)
    requires
        all_digits(s),
        s.len() > 0,
    ensures
        digits_val(s) >= digits_val(s.drop_last()),
        digits_val(s) == digits_val(s.drop_last()) * 10 + digit_val(s.last()),
{
    assert(all_digits(s.drop_last())) by {
        assert forall|i: int| 0 <= i < s.len() - 1 implies is_digit(
            #[trigger] s.drop_last()[i],
        ) by {
            assert(s.drop_last()[i] == s[i]);
        }
    }
    lemma_digits_val_nonneg(s.drop_last());
    assert(is_digit(s.last())) by {
        assert(s.last() == s[s.len() - 1]);
    }
}

/// One decimal digit as text.
fn digit_str(d: u32) -> (r: &'static str)
    requires
        d < 10,
    ensures
        r@ =~= seq![digit_char(d as int)],
{
    let r: &'static str = if d == 0 {
        "0"
    } else if d == 1 {
        "1"
    } else if d == 2 {
        "2"
    } else if d == 3 {
        "3"
    } else if d == 4 {
        "4"
    } else if d == 5 {
        "5"
    } else if d == 6 {
        "6"
    } else if d == 7 {
        "7"
    } else if d == 8 {
        "8"
    } else {
        "9"
    };
    proof {
        reveal_strlit("0");
        reveal_strlit("1");
        reveal_strlit("2");
        reveal_strlit("3");
        reveal_strlit("4");
        reveal_strlit("5");
        reveal_strlit("6");
        reveal_strlit("7");
        reveal_strlit("8");
        reveal_strlit("9");
    }
    r
}

/// The decimal digits of a non-negative number.
fn u32_dec_string(m: u32) -> (s: String)
    ensures
        s@ == dec_digits(m as int),
    decreases m,
{
    let d = m % 10;
    let digit = digit_str(d);
    if m < 10 {
        digit.to_owned()
    } else {
        let mut s = u32_dec_string(m / 10);
        s.append(digit);
        proof {
            assert(s@ =~= dec_digits(m as int));
        }
        s
    }
}

/// Renders an integer in decimal notation.
pub fn int_to_string(n: i32) -> (s: String)
    ensures
        s@ == int_str(n as int),
{
    if n >= 0 {
        u32_dec_string(n as u32)
    } else {
        let m: u32 = (-(n as i64)) as u32;
        let mut s = String::from_str("-");
        proof {
            reveal_strlit("-");
        }
        let digits = u32_dec_string(m);
        s.append(digits.as_str());
        proof {
            assert(s@ =~= int_str(n as int));
        }
        s
    }
}

/// Reads an integer from text: `Some` exactly when the text spells an
/// integer that fits in 32 bits, and then the value is the one spelled.
#[verifier::loop_isolation(false)]
pub fn string_to_int(s: &str) -> (r: Option<i32>)
    ensures
        match r {
            Some(v) => is_int_literal(s@) && i32::MIN <= int_literal_val(s@) <= i32::MAX && v
                as int == int_literal_val(s@),
            None => !(is_int_literal(s@) && i32::MIN <= int_literal_val(s@) <= i32::MAX),
        },
{
    let n = s.unicode_len();
    if n == 0 {
        return None;
    }
    let neg = s.get_char(0) == '-';
    let start: usize = if neg {
        1
    } else {
        0
    };
    if start >= n {
        return None;
    }
    let ghost digits = s@.subrange(start as int, n as int);
    let limit: u64 = if neg {
        2147483648
    } else {
        2147483647
    };
    let mut acc: u64 = 0;
    let mut i: usize = start;
    while i < n
        invariant
            start <= i <= n,
            n == s@.len(),
            s@.len() > 0,
            neg <==> s@[0] == '-',
            start == if neg {
                1int
            } else {
                0int
            },
            digits == s@.subrange(start as int, n as int),
            all_digits(s@.subrange(start as int, i as int)),
            acc as int == digits_val(s@.subrange(start as int, i as int)),
            acc <= limit,
            limit == if neg {
                2147483648u64
            } else {
                2147483647u64
            },
        decreases n - i,
    {
        let c = s.get_char(i);
        let u = c as u32;
        if !(u >= 48 && u <= 57) {
            proof {
                assert(s@.subrange(start as int, n as int)[i - start] == s@[i as int]);
                assert(!is_digit(s@[i as int]));
                if neg {
                    assert(!all_digits(s@.subrange(1int, s@.len() as int)));
                } else {
                    assert(!all_digits(s@));
                }
                assert(!is_int_literal(s@));
            }
            return None;
        }
        let d: u32 = u - 48;
        let ghost pre = s@.subrange(start as int, i as int);
        let ghost cur = s@.subrange(start as int, i + 1 as int);
        proof {
            assert(cur.drop_last() =~= pre);
            assert(cur.last() == s@[i as int]);
            assert forall|j: int| 0 <= j < cur.len() implies is_digit(#[trigger] cur[j]) by {
                assert(cur[j] == s@[start + j]);
                if j < cur.len() - 1 {
                    assert(pre[j] == s@[start + j]);
                }
            }
            lemma_digits_val_nonneg(pre);
        }
        acc = acc * 10 + (d as u64);
        if acc > limit {
            proof {
                if all_digits(digits) {
                    assert(cur =~= digits.subrange(0, cur.len() as int));
                    lemma_digits_more_is_bigger(digits, cur);
                    if neg {
                        assert(int_literal_val(s@) == -digits_val(digits));
                    } else {
                        assert(digits =~= s@);
                        assert(int_literal_val(s@) == digits_val(digits));
                    }
                } else {
                    if neg {
                        assert(!is_int_literal(s@));
                    } else {
                        assert(digits =~= s@);
                        assert(!is_int_literal(s@));
                    }
                }
            }
            return None;
        }
        i += 1;
    }
    proof {
        assert(s@.subrange(start as int, n as int) =~= s@.subrange(start as int, i as int));
        if neg {
            assert(s@[0] == '-');
            assert(int_literal_val(s@) == -digits_val(digits));
        } else {
            assert(is_int_literal(s@)) by {
                if s@[0] == '-' {
                    assert(digits[0] == s@[0]);
                    assert(is_digit(s@[0]));
                    assert(false);
                }
                assert(digits =~= s@);
            }
            assert(digits =~= s@);
            assert(int_literal_val(s@) == digits_val(digits));
        }
    }
    if neg {
        if acc == 2147483648 {
            Some(i32::MIN)
        } else {
            Some(-(acc as i32))
        }
    } else {
        Some(acc as i32)
    }
}

/// A digit run is worth at least any of its prefixes.
proof fn lemma_digits_more_is_bigger(s: Seq<char>, p: Seq<char>)
    requires
        all_digits(s),
        p == s.subrange(0, p.len() as int),
        p.len() <= s.len(),
    ensures
        digits_val(s) >= digits_val(p),
    decreases s.len() - p.len(),
{
    assert(all_digits(p)) by {
        assert forall|i: int| 0 <= i < p.len() implies is_digit(#[trigger] p[i]) by {
            assert(p[i] == s[i]);
        }
    }
    if p.len() < s.len() {
        let q = s.subrange(0, p.len() as int + 1);
        assert(all_digits(q)) by {
            assert forall|i: int| 0 <= i < q.len() implies is_digit(#[trigger] q[i]) by {
                assert(q[i] == s[i]);
            }
        }
        assert(q.drop_last() =~= p);
        lemma_digits_val_extend(q);
        lemma_digits_val_nonneg(p);
        assert(digit_val(q.last()) >= 0) by {
            assert(q.last() == s[p.len() as int]);
        }
        lemma_digits_more_is_bigger(s, q);
    } else {
        assert(p =~= s);
    }
}

} // verus!
