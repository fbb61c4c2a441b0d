//! Lexical rules for tokens: an operator token is exactly one of the four
//! characters `/ * + -`, and every other valid token is a base-10 signed
//! integer literal (an optional leading `-`, then one or more digits) whose
//! value fits in an `i32`.
use vstd::prelude::*;

verus! {

/// The four binary operators the engine knows.
pub open spec fn is_op_char(c: char) -> bool {
    c == '/' || c == '*' || c == '+' || c == '-'
}

/// An operator token is a single operator character.
pub open spec fn is_op_token(s: Seq<char>) -> bool {
    s.len() == 1 && is_op_char(s[0])
}

/// A decimal digit.
pub open spec fn is_digit_char(c: char) -> bool {
    48 <= c as int <= 57
}

/// The numeric value of a digit character.
pub open spec fn digit_char_val(c: char) -> nat
    recommends
        is_digit_char(c),
{
    (c as int - 48) as nat
}

/// Every character of `s` is a decimal digit.
pub open spec fn all_digit_chars(s: Seq<char>) -> bool {
    forall|i: int| 0 <= i < s.len() ==> is_digit_char(s[i])
}

/// The value of a digit string read in base 10.
pub open spec fn digits_val(s: Seq<char>) -> nat
    decreases s.len(),
{
    if s.len() == 0 {
        0
    } else {
        digits_val(s.drop_last()) * 10 + digit_char_val(s.last())
    }
}

/// The integer value of a token, when the token is a well-formed signed
/// decimal literal whose value fits in an `i32`; `None` otherwise.
pub open spec fn spec_parse_int(s: Seq<char>) -> Option<i32> {
    if s.len() >= 1 && s[0] == '-' {
        let d = s.skip(1);
        if d.len() >= 1 && all_digit_chars(d) && digits_val(d) <= 0x8000_0000 {
            Some((0 - digits_val(d) as int) as i32)
        } else {
            None
        }
    } else {
        if s.len() >= 1 && all_digit_chars(s) && digits_val(s) <= 0x7fff_ffff {
            Some(digits_val(s) as int as i32)
        } else {
            None
        }
    }
}

/// What a token means: an operator, an integer literal, or neither.
#[derive(Debug, PartialEq, Eq, Clone, Copy)]
pub enum TokenKind {
    Op(char),
    Int(i32),
    Bad,
}

/// The class of a token. Operator tokens are recognized before integer
/// literals, so a lone `-` is the subtraction operator, never a number.
pub open spec fn spec_classify(s: Seq<char>) -> TokenKind {
    if is_op_token(s) {
        TokenKind::Op(s[0])
    } else {
        match spec_parse_int(s) {
            Some(v) => TokenKind::Int(v),
            None => TokenKind::Bad,
        }
    }
}

/// Extending a digit string on the right never decreases its value.
proof fn lemma_digits_val_prefix_le(s: Seq<char>, i: int)
    requires
        0 <= i <= s.len(),
    ensures
        digits_val(s.take(i)) <= digits_val(s),
    decreases s.len() - i,
{
    if i == s.len() {
        assert(s.take(i) =~= s);
    } else {
        lemma_digits_val_prefix_le(s, i + 1);
        assert(s.take(i + 1).drop_last() =~= s.take(i));
        assert(digits_val(s.take(i + 1)) == digits_val(s.take(i)) * 10 + digit_char_val(
            s.take(i + 1).last(),
        ));
        assert(digits_val(s.take(i)) <= digits_val(s.take(i)) * 10) by (nonlinear_arith);
    }
}

/// Reads a token as a signed decimal integer literal.
///
/// Returns `Some(v)` exactly when the token is an optional leading `-`
/// followed by one or more digits and the value fits in an `i32`.
pub fn parse_int_token(s: &str) -> (r: Option<i32>)
    ensures
        r == spec_parse_int(s@),
{
    let n = s.unicode_len();
    if n == 0 {
        return None;
    }
    let neg = s.get_char(0) == '-';
    let start: usize = if neg {
        1
    } else {
        0
    };
    if start == n {
        // a lone "-" has no digits
        return None;
    }
    let ghost d = if neg {
        s@.skip(1)
    } else {
        s@
    };
    let mut acc: u64 = 0;
    let mut i: usize = start;
    while i < n
        invariant
            start <= i <= n,
            n == s@.len(),
            start == if neg {
                1int
            } else {
                0int
            },
            neg ==> s@[0] == '-',
            !neg ==> !(s@.len() >= 1 && s@[0] == '-'),
            d == if neg {
                s@.skip(1)
            } else {
                s@
            },
            all_digit_chars(d.take(i - start)),
            acc == digits_val(d.take(i - start)),
            acc <= 0x8000_0000,
        decreases n - i,
    {
        let c = s.get_char(i);
        let u = c as u32;
        if u < 48 || u > 57 {
            assert(!is_digit_char(d[i - start]));
            return None;
        }
        assert(d.take(i + 1 - start).drop_last() =~= d.take(i - start));
        assert(d.take(i + 1 - start).last() == c);
        acc = acc * 10 + (u - 48) as u64;
        if acc > 0x8000_0000 {
            proof {
                if all_digit_chars(d) {
                    lemma_digits_val_prefix_le(d, i + 1 - start);
                }
            }
            return None;
        }
        i = i + 1;
    }
    assert(d.take(n - start) =~= d);
    if neg {
        let v = (-(acc as i64)) as i32;
        assert(v == (0 - digits_val(d) as int) as i32);
        Some(v)
    } else {
        if acc > 0x7fff_ffff {
            return None;
        }
        Some(acc as i32)
    }
}

/// Classifies a token: one of the four operator characters alone is an
/// operator, anything else is an integer literal or invalid.
pub fn classify_token(s: &str) -> (k: TokenKind)
    ensures
        k == spec_classify(s@),
{
    let n = s.unicode_len();
    if n == 1 {
        let c = s.get_char(0);
        if c == '/' || c == '*' || c == '+' || c == '-' {
            return TokenKind::Op(c);
        }
    }
    match parse_int_token(s) {
        Some(v) => TokenKind::Int(v),
        None => TokenKind::Bad,
    }
}

} // verus!
