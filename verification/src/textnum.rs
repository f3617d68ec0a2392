use crate::error::Error;
use vstd::prelude::*;
use vstd::string::StrSliceExecFns;
use vstd::string::StringExecFns;

verus! {

/// The decimal digit character for one digit value.
pub open spec fn dec_digit(d: int) -> char {
    if d == 0 {
        '0'
    } else if d == 1 {
        '1'
    } else if d == 2 {
        '2'
    } else if d == 3 {
        '3'
    } else if d == 4 {
        '4'
    } else if d == 5 {
        '5'
    } else if d == 6 {
        '6'
    } else if d == 7 {
        '7'
    } else if d == 8 {
        '8'
    } else {
        '9'
    }
}

/// The decimal digits of a natural number, most significant first, with no
/// leading zero unless the number is zero.
pub open spec fn dec_digits(n: nat) -> Seq<char>
    decreases n,
{
    if n < 10 {
        seq![dec_digit(n as int)]
    } else {
        dec_digits(n / 10) + seq![dec_digit((n % 10) as int)]
    }
}

/// The decimal text of an integer: a minus sign for a negative number,
/// then its digits.
pub open spec fn int_text(i: int) -> Seq<char> {
    if i < 0 {
        seq!['-'] + dec_digits((-i) as nat)
    } else {
        dec_digits(i as nat)
    }
}

/// Whether a character is a decimal digit.
pub open spec fn is_dec_digit(c: char) -> bool {
    '0' <= c && c <= '9'
}

/// The value of one digit character.
pub open spec fn digit_val(c: char) -> int {
    c as int - '0' as int
}

/// The value of a digit string, most significant first.
pub open spec fn digits_val(s: Seq<char>) -> int
    decreases s.len(),
{
    if s.len() == 0 {
        0
    } else {
        digits_val(s.drop_last()) * 10 + digit_val(s.last())
    }
}

/// The digit part of an integer literal: everything after a leading sign.
pub open spec fn literal_digits(s: Seq<char>) -> Seq<char> {
    if s.len() > 0 && (s[0] == '-' || s[0] == '+') {
        s.drop_first()
    } else {
        s
    }
}

/// Whether a character sequence is a strict integer literal: an optional
/// sign, then one or more decimal digits and nothing else.
pub open spec fn is_int_literal(s: Seq<char>) -> bool {
    &&& literal_digits(s).len() > 0
    &&& forall|i: int|
        0 <= i < literal_digits(s).len() ==> is_dec_digit(#[trigger] literal_digits(s)[i])
}

/// The value of a strict integer literal.
pub open spec fn int_literal_val(s: Seq<char>) -> int {
    if s.len() > 0 && s[0] == '-' {
        -digits_val(literal_digits(s))
    } else {
        digits_val(literal_digits(s))
    }
}

/// The strict integer parse of a character sequence: its value exactly
/// when the text is an integer literal whose value fits a 64-bit signed
/// integer, and nothing otherwise.
pub open spec fn sp_parse_i64(s: Seq<char>) -> Option<i64> {
    if is_int_literal(s) && i64::MIN <= int_literal_val(s) <= i64::MAX {
        Some(int_literal_val(s) as i64)
    } else {
        None
    }
}

/// A digit string's value is never negative.
pub proof fn lemma_digits_val_nonneg(s: Seq<char>)
    requires
        forall|i: int| 0 <= i < s.len() ==> is_dec_digit(#[trigger] s[i]),
    ensures
        digits_val(s) >= 0,
    decreases s.len(),
{
    if s.len() > 0 {
        assert(forall|i: int|
            0 <= i < s.drop_last().len() ==> is_dec_digit(#[trigger] s.drop_last()[i]));
        lemma_digits_val_nonneg(s.drop_last());
    }
}

/// The single-character string of one decimal digit.
fn digit_str(d: u64) -> (r: &'static str)
    requires
        d < 10,
    ensures
        r@ == seq![dec_digit(d as int)],
{
    proof {
        reveal_strlit("0");
        reveal_strlit("1");
        reveal_strlit("2");
        reveal_strlit("3");
        reveal_strlit("4");
        reveal_strlit("5");
        reveal_strlit("6");
        reveal_strlit("7");
        reveal_strlit("8");
        reveal_strlit("9");
    }
    let r = match d {
        0u64 => "0",
        1u64 => "1",
        2u64 => "2",
        3u64 => "3",
        4u64 => "4",
        5u64 => "5",
        6u64 => "6",
        7u64 => "7",
        8u64 => "8",
        _ => "9",
    };
    proof {
        assert(r@ =~= seq![dec_digit(d as int)]);
    }
    r
}

/// The decimal digits of a natural number, as `dec_digits` describes them.
fn dec_to_string(m: u64) -> (r: String)
    ensures
        r@ == dec_digits(m as nat),
    decreases m,
{
    if m < 10 {
        digit_str(m).to_owned()
    } else {
        let mut s = dec_to_string(m / 10);
        s.append(digit_str(m % 10));
        proof {
            assert(s@ =~= dec_digits((m / 10) as nat) + seq![dec_digit((m % 10) as int)]);
        }
        s
    }
}

/// The decimal text of a 64-bit signed integer, as `int_text` describes
/// it.
pub fn int_to_string(i: i64) -> (r: String)
    ensures
        r@ == int_text(i as int),
{
    if i >= 0 {
        dec_to_string(i as u64)
    } else {
        let m: u64 = if i == i64::MIN {
            9223372036854775808u64
        } else {
            (-i) as u64
        };
        proof {
            assert(m as int == -(i as int));
        }
        let mut s = "-".to_owned();
        proof {
            reveal_strlit("-");
            assert(s@ =~= seq!['-']);
        }
        s.append(dec_to_string(m).as_str());
        proof {
            assert(s@ =~= seq!['-'] + dec_digits((-(i as int)) as nat));
        }
        s
    }
}

/// Relies on `String::from_utf8`: it returns the string whose characters
/// decode the given bytes exactly when the bytes are valid UTF-8, and
/// refuses them otherwise.
#[verifier::external_body]
pub fn string_from_utf8(bytes: Vec<u8>) -> (r: Option<String>)
    ensures
        match r {
            Some(s) => vstd::utf8::valid_utf8(bytes@) && s@ == vstd::utf8::decode_utf8(bytes@),
            None => !vstd::utf8::valid_utf8(bytes@),
        },
{
    match String::from_utf8(bytes) {
        Ok(s) => Some(s),
        Err(_) => None,
    }
}

/// The strict integer parse of a string, as `sp_parse_i64` describes it:
/// an optional sign and decimal digits, rejected exactly when the text is
/// not such a literal or its value does not fit.
pub fn parse_integer(s: &str) -> (r: Result<i64, Error>)
    ensures
        match r {
            Ok(v) => sp_parse_i64(s@) == Some(v),
            Err(_) => sp_parse_i64(s@) is None,
        },
{
    let n = s.unicode_len();
    if n == 0 {
        return Err(Error::InputError("empty integer literal".to_owned()));
    }
    let first = s.get_char(0);
    let neg = first == '-';
    let start: usize = if neg || first == '+' {
        1
    } else {
        0
    };
    let ghost ds = literal_digits(s@);
    proof {
        assert(ds =~= s@.subrange(start as int, n as int));
    }
    if start == n {
        return Err(Error::InputError("empty integer literal".to_owned()));
    }
    let mut acc: u64 = 0;
    let mut too_big = false;
    let mut i: usize = start;
    proof {
        assert(ds.subrange(0, 0).len() == 0);
    }
    while i < n
        invariant
            start <= i <= n,
            n == s@.len(),
            start == 0 || start == 1,
            start < n,
            ds == literal_digits(s@),
            ds =~= s@.subrange(start as int, n as int),
            forall|j: int| 0 <= j < i - start ==> is_dec_digit(#[trigger] ds[j]),
            !too_big ==> acc as int == digits_val(ds.subrange(0, i - start)),
            too_big ==> digits_val(ds.subrange(0, i - start)) > u64::MAX as int,
        decreases n - i,
    {
        let c = s.get_char(i);
        if c < '0' || c > '9' {
            proof {
                assert(ds[i - start] == s@[i as int]);
                assert(!is_dec_digit(ds[i - start]));
                assert(!is_int_literal(s@));
            }
            return Err(Error::InputError("invalid digit in integer literal".to_owned()));
        }
        let d: u64 = (c as u32 as u64) - 48;
        let ghost prefix = ds.subrange(0, i - start);
        let ghost prefix2 = ds.subrange(0, i + 1 - start);
        proof {
            assert(ds[i - start] == s@[i as int]);
            assert(is_dec_digit(ds[i - start]));
            assert(d as int == digit_val(ds[i - start]));
            assert(prefix2.drop_last() =~= prefix);
            assert(prefix2.last() == ds[i - start]);
            assert(digits_val(prefix2) == digits_val(prefix) * 10 + d as int);
            lemma_digits_val_nonneg(prefix);
        }
        if too_big {
            proof {
                assert(digits_val(prefix) * 10 >= digits_val(prefix)) by (nonlinear_arith)
                    requires
                        digits_val(prefix) >= 0,
                ;
                assert(digits_val(prefix2) > u64::MAX as int);
            }
        } else if acc > (u64::MAX - d) / 10 {
            proof {
                assert(acc as int * 10 + d as int > u64::MAX as int) by (nonlinear_arith)
                    requires
                        acc as int > ((u64::MAX as int) - (d as int)) / 10,
                        (d as int) < 10,
                        (d as int) >= 0,
                        (acc as int) >= 0,
                ;
                assert(digits_val(prefix2) > u64::MAX as int);
            }
            too_big = true;
        } else {
            proof {
                assert(acc as int * 10 + d as int <= u64::MAX as int) by (nonlinear_arith)
                    requires
                        acc as int <= ((u64::MAX as int) - (d as int)) / 10,
                        (d as int) < 10,
                        (d as int) >= 0,
                        (acc as int) >= 0,
                ;
            }
            acc = acc * 10 + d;
        }
        i = i + 1;
    }
    proof {
        assert(ds.subrange(0, n - start) =~= ds);
        assert(is_int_literal(s@));
        lemma_digits_val_nonneg(ds);
    }
    if too_big {
        return Err(Error::InputError("integer literal out of range".to_owned()));
    }
    if neg {
        proof {
            assert(int_literal_val(s@) == -(acc as int));
        }
        if acc > 9223372036854775808u64 {
            return Err(Error::InputError("integer literal out of range".to_owned()));
        }
        if acc == 9223372036854775808u64 {
            return Ok(i64::MIN);
        }
        Ok(-(acc as i64))
    } else {
        proof {
            assert(int_literal_val(s@) == acc as int);
        }
        if acc > 9223372036854775807u64 {
            return Err(Error::InputError("integer literal out of range".to_owned()));
        }
        Ok(acc as i64)
    }
}

} // verus!
