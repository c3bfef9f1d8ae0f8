//! Parsing of one token into a scalar value.
//!
//! The grammar of a numeric token mirrors the standard decimal grammar: an
//! optional sign (`+` for unsigned values, `+` or `-` for signed ones)
//! followed by one or more ASCII digits.  Every parser states exactly on
//! which tokens it succeeds and which value it returns.

use vstd::prelude::*;
use vstd::string::*;

verus! {

/// An ASCII decimal digit.
pub open spec fn is_digit(c: char) -> bool {
    '0' <= c && c <= '9'
}

/// The numeric value of one digit.
pub open spec fn digit_val(c: char) -> int {
    c as int - '0' as int
}

/// A non-empty, all-digit sequence.
pub open spec fn is_digits(s: Seq<char>) -> bool {
    s.len() > 0 && forall|i: int| 0 <= i < s.len() ==> is_digit(s[i])
}

/// The value of a digit sequence, most significant digit first.
pub open spec fn digits_val(s: Seq<char>) -> int
    decreases s.len(),
{
    if s.len() == 0 {
        0
    } else {
        digits_val(s.take(s.len() - 1)) * 10 + digit_val(s.last())
    }
}

/// The digits of an unsigned token: everything after an optional leading `+`.
pub open spec fn uint_body(s: Seq<char>) -> Seq<char> {
    if s.len() > 0 && s[0] == '+' {
        s.skip(1)
    } else {
        s
    }
}

/// A well-formed unsigned decimal token.
pub open spec fn is_uint_token(s: Seq<char>) -> bool {
    is_digits(uint_body(s))
}

/// The value of an unsigned decimal token.
pub open spec fn uint_token_val(s: Seq<char>) -> int {
    digits_val(uint_body(s))
}

/// True when the signed token carries a leading minus sign.
pub open spec fn int_is_negative(s: Seq<char>) -> bool {
    s.len() > 0 && s[0] == '-'
}

/// The digits of a signed token: everything after an optional `+` or `-`.
pub open spec fn int_body(s: Seq<char>) -> Seq<char> {
    if s.len() > 0 && (s[0] == '+' || s[0] == '-') {
        s.skip(1)
    } else {
        s
    }
}

/// A well-formed signed decimal token.
pub open spec fn is_int_token(s: Seq<char>) -> bool {
    is_digits(int_body(s))
}

/// The value of a signed decimal token.
pub open spec fn int_token_val(s: Seq<char>) -> int {
    if int_is_negative(s) {
        -digits_val(int_body(s))
    } else {
        digits_val(int_body(s))
    }
}

/// A digit sequence never has a negative value.
pub proof fn lemma_digits_val_nonneg(s: Seq<char>)
    requires
        forall|i: int| 0 <= i < s.len() ==> is_digit(s[i]),
    ensures
        digits_val(s) >= 0,
    decreases s.len(),
{
    if s.len() > 0 {
        lemma_digits_val_nonneg(s.take(s.len() - 1));
    }
}

/// Extending a digit sequence by one digit multiplies its value by ten and
/// adds the new digit; hence prefixes never exceed the whole.
pub proof fn lemma_digits_val_prefix_le(s: Seq<char>, j: int)
    requires
        forall|i: int| 0 <= i < s.len() ==> is_digit(s[i]),
        0 <= j <= s.len(),
    ensures
        digits_val(s.take(j)) <= digits_val(s),
    decreases s.len() - j,
{
    if j < s.len() {
        lemma_digits_val_prefix_le(s, j + 1);
        let t = s.take(j + 1);
        assert(t.take(j) =~= s.take(j));
        lemma_digits_val_nonneg(s.take(j));
        assert(digits_val(t) == digits_val(s.take(j)) * 10 + digit_val(t.last()));
    } else {
        assert(s.take(j) =~= s);
    }
}

/// Parses the digit run `s[from..]` as an unsigned value, reporting `None`
/// when a non-digit occurs or the value exceeds `max`.
fn parse_digits(s: &str, from: usize, max: u64) -> (r: Option<u64>)
    requires
        from <= s@.len(),
    ensures
        match r {
            Some(v) => is_digits(s@.skip(from as int)) && v == digits_val(s@.skip(from as int))
                && v <= max,
            None => !(is_digits(s@.skip(from as int)) && digits_val(s@.skip(from as int))
                <= max),
        },
{
    let ghost body = s@.skip(from as int);
    let n = s.unicode_len();
    if from == n {
        return None;
    }
    let mut acc: u64 = 0;
    let mut i = from;
    while i < n
        invariant
            from <= i <= n,
            n == s@.len(),
            body == s@.skip(from as int),
            forall|k: int| 0 <= k < i - from ==> is_digit(body[k]),
            acc == digits_val(body.take(i - from)),
            acc <= max,
            max <= u64::MAX,
        decreases n - i,
    {
        let c = s.get_char(i);
        proof {
            assert(body[i - from] == s@[i as int]);
        }
        if !('0' <= c && c <= '9') {
            return None;
        }
        let d: u64 = c as u64 - 48;
        proof {
            assert(d == digit_val(c));
            assert(body.take(i - from + 1).last() == c);
            assert(body.take(i - from + 1).take(i - from) =~= body.take(i - from));
        }
        if d > max || acc > (max - d) / 10 {
            proof {
                assert(digits_val(body.take(i - from + 1)) == acc * 10 + d);
                if d <= max {
                    assert(acc * 10 >= ((max - d) / 10 + 1) * 10 > max - d) by (nonlinear_arith)
                        requires
                            acc >= (max - d) / 10 + 1,
                            0 <= max - d,
                    ;
                }
                if is_digits(body) {
                    lemma_digits_val_prefix_le(body, i - from + 1);
                }
            }
            return None;
        }
        acc = acc * 10 + d;
        i = i + 1;
    }
    proof {
        assert(body.take(n - from) =~= body);
    }
    Some(acc)
}

/// Parses one token as an unsigned decimal value of at most `max`.
///
/// Succeeds exactly on the tokens of the unsigned grammar whose value fits.
pub fn parse_uint(tok: &str, max: u64) -> (r: Option<u64>)
    ensures
        match r {
            Some(v) => is_uint_token(tok@) && v == uint_token_val(tok@) && v <= max,
            None => !(is_uint_token(tok@) && uint_token_val(tok@) <= max),
        },
{
    let n = tok.unicode_len();
    if n > 0 && tok.get_char(0) == '+' {
        parse_digits(tok, 1, max)
    } else {
        proof {
            assert(tok@.skip(0) =~= tok@);
        }
        parse_digits(tok, 0, max)
    }
}

/// Parses one token as a signed decimal value in `[min, max]`.
///
/// `min` may reach `i64::MIN`; the magnitude is accumulated as unsigned and
/// converted at the end, so the extreme negative value parses exactly.
pub fn parse_int(tok: &str, min: i64, max: i64) -> (r: Option<i64>)
    requires
        min <= 0,
        max >= 0,
    ensures
        match r {
            Some(v) => is_int_token(tok@) && v == int_token_val(tok@) && min <= v <= max,
            None => !(is_int_token(tok@) && min <= int_token_val(tok@) <= max),
        },
{
    let n = tok.unicode_len();
    let negative = n > 0 && tok.get_char(0) == '-';
    let signed = n > 0 && (tok.get_char(0) == '+' || tok.get_char(0) == '-');
    let from: usize = if signed {
        1
    } else {
        0
    };
    let bound: u64 = if negative {
        if min == i64::MIN {
            9223372036854775808u64
        } else {
            (-min) as u64
        }
    } else {
        max as u64
    };
    proof {
        if !signed {
            assert(tok@.skip(0) =~= tok@);
        }
    }
    match parse_digits(tok, from, bound) {
        None => None,
        Some(mag) => {
            if negative {
                if mag == 9223372036854775808u64 {
                    Some(i64::MIN)
                } else {
                    Some(-(mag as i64))
                }
            } else {
                Some(mag as i64)
            }
        },
    }
}

/// Parses the digit run `s[from..]` as an unsigned value of up to 128 bits,
/// reporting `None` when a non-digit occurs or the value exceeds `max`.
fn parse_digits_wide(s: &str, from: usize, max: u128) -> (r: Option<u128>)
    requires
        from <= s@.len(),
    ensures
        match r {
            Some(v) => is_digits(s@.skip(from as int)) && v == digits_val(s@.skip(from as int))
                && v <= max,
            None => !(is_digits(s@.skip(from as int)) && digits_val(s@.skip(from as int))
                <= max),
        },
{
    let ghost body = s@.skip(from as int);
    let n = s.unicode_len();
    if from == n {
        return None;
    }
    let mut acc: u128 = 0;
    let mut i = from;
    while i < n
        invariant
            from <= i <= n,
            n == s@.len(),
            body == s@.skip(from as int),
            forall|k: int| 0 <= k < i - from ==> is_digit(body[k]),
            acc == digits_val(body.take(i - from)),
            acc <= max,
            max <= u128::MAX,
        decreases n - i,
    {
        let c = s.get_char(i);
        proof {
            assert(body[i - from] == s@[i as int]);
        }
        if !('0' <= c && c <= '9') {
            return None;
        }
        let d: u128 = c as u128 - 48;
        proof {
            assert(d == digit_val(c));
            assert(body.take(i - from + 1).last() == c);
            assert(body.take(i - from + 1).take(i - from) =~= body.take(i - from));
        }
        if d > max || acc > (max - d) / 10 {
            proof {
                assert(digits_val(body.take(i - from + 1)) == acc * 10 + d);
                if d <= max {
                    assert(acc * 10 >= ((max - d) / 10 + 1) * 10 > max - d) by (nonlinear_arith)
                        requires
                            acc >= (max - d) / 10 + 1,
                            0 <= max - d,
                    ;
                }
                if is_digits(body) {
                    lemma_digits_val_prefix_le(body, i - from + 1);
                }
            }
            return None;
        }
        acc = acc * 10 + d;
        i = i + 1;
    }
    proof {
        assert(body.take(n - from) =~= body);
    }
    Some(acc)
}

/// Parses one token as an unsigned decimal value of at most `max`, for the
/// widest unsigned kind.
pub fn parse_uint_wide(tok: &str, max: u128) -> (r: Option<u128>)
    ensures
        match r {
            Some(v) => is_uint_token(tok@) && v == uint_token_val(tok@) && v <= max,
            None => !(is_uint_token(tok@) && uint_token_val(tok@) <= max),
        },
{
    let n = tok.unicode_len();
    if n > 0 && tok.get_char(0) == '+' {
        parse_digits_wide(tok, 1, max)
    } else {
        proof {
            assert(tok@.skip(0) =~= tok@);
        }
        parse_digits_wide(tok, 0, max)
    }
}

/// Parses one token as a signed decimal value of the widest signed kind.
pub fn parse_int_wide(tok: &str) -> (r: Option<i128>)
    ensures
        match r {
            Some(v) => is_int_token(tok@) && v == int_token_val(tok@),
            None => !(is_int_token(tok@) && i128::MIN <= int_token_val(tok@) <= i128::MAX),
        },
{
    let n = tok.unicode_len();
    let negative = n > 0 && tok.get_char(0) == '-';
    let signed = n > 0 && (tok.get_char(0) == '+' || tok.get_char(0) == '-');
    let from: usize = if signed {
        1
    } else {
        0
    };
    let bound: u128 = if negative {
        170141183460469231731687303715884105728u128
    } else {
        i128::MAX as u128
    };
    proof {
        if !signed {
            assert(tok@.skip(0) =~= tok@);
        }
    }
    match parse_digits_wide(tok, from, bound) {
        None => None,
        Some(mag) => {
            if negative {
                if mag == 170141183460469231731687303715884105728u128 {
                    Some(i128::MIN)
                } else {
                    Some(-(mag as i128))
                }
            } else {
                Some(mag as i128)
            }
        },
    }
}

/// Parses one token as `true` or `false`.
pub fn parse_bool(tok: &str) -> (r: Option<bool>)
    ensures
        match r {
            Some(v) => v == (tok@ == "true"@) && (tok@ == "true"@ || tok@ == "false"@),
            None => tok@ != "true"@ && tok@ != "false"@,
        },
{
    proof {
        reveal_strlit("true");
        reveal_strlit("false");
    }
    let n = tok.unicode_len();
    if n == 4 && tok.get_char(0) == 't' && tok.get_char(1) == 'r' && tok.get_char(2) == 'u'
        && tok.get_char(3) == 'e' {
        proof {
            assert(tok@ =~= "true"@);
        }
        Some(true)
    } else if n == 5 && tok.get_char(0) == 'f' && tok.get_char(1) == 'a' && tok.get_char(2) == 'l'
        && tok.get_char(3) == 's' && tok.get_char(4) == 'e' {
        proof {
            assert(tok@ =~= "false"@);
        }
        Some(false)
    } else {
        proof {
            if tok@ == "true"@ {
                assert(tok@.len() == 4);
                assert(tok@[0] == 't' && tok@[1] == 'r' && tok@[2] == 'u' && tok@[3] == 'e');
            }
            if tok@ == "false"@ {
                assert(tok@.len() == 5);
                assert(tok@[0] == 'f' && tok@[1] == 'a' && tok@[2] == 'l' && tok@[3] == 's'
                    && tok@[4] == 'e');
            }
        }
        None
    }
}

/// Parses one token as a single character.
pub fn parse_char(tok: &str) -> (r: Option<char>)
    ensures
        match r {
            Some(c) => tok@.len() == 1 && c == tok@[0],
            None => tok@.len() != 1,
        },
{
    if tok.unicode_len() == 1 {
        Some(tok.get_char(0))
    } else {
        None
    }
}

} // verus!
