//! Decimal numerals: writing integers and reading signed scores.
use crate::text::{rows, split, split_on};
use vstd::prelude::*;

verus! {

/// The character of the decimal digit `d`.
pub open spec fn digit_char(d: nat) -> char
    recommends
        d < 10,
{
    (('0' as u8) + d) as u8 as char
}

/// The decimal numeral of `n`, without leading zeros.
pub open spec fn decimal(n: nat) -> Seq<char>
    decreases n,
{
    if n < 10 {
        seq![digit_char(n)]
    } else {
        decimal(n / 10).push(digit_char(n % 10))
    }
}

/// The decimal numeral of `i`, with a minus sign where it is negative.
pub open spec fn signed_decimal(i: int) -> Seq<char> {
    if i < 0 {
        seq!['-'] + decimal((-i) as nat)
    } else {
        decimal(i as nat)
    }
}

/// Appends the decimal numeral of `n` to `out`.
pub fn push_decimal(out: &mut Vec<char>, n: u64)
    ensures
        final(out)@ == old(out)@ + decimal(n as nat),
    decreases n,
{
    if n >= 10 {
        push_decimal(out, n / 10);
    }
    let d: u8 = (n % 10) as u8;
    out.push((48u8 + d) as char);
    proof {
        if n >= 10 {
            assert(old(out)@ + decimal(n as nat) =~= (old(out)@ + decimal((n / 10) as nat)).push(
                digit_char((n % 10) as nat),
            ));
        } else {
            assert(old(out)@ + decimal(n as nat) =~= old(out)@.push(digit_char(n as nat)));
        }
    }
}

/// Appends the decimal numeral of `i` to `out`.
pub fn push_signed_decimal(out: &mut Vec<char>, i: i64)
    ensures
        final(out)@ == old(out)@ + signed_decimal(i as int),
{
    if i < 0 {
        out.push('-');
        let ghost mid = out@;
        let magnitude: u64 = if i == i64::MIN {
            9223372036854775808u64
        } else {
            (-i) as u64
        };
        push_decimal(out, magnitude);
        proof {
            assert(out@ =~= old(out)@ + (seq!['-'] + decimal((-i) as nat)));
        }
    } else {
        push_decimal(out, i as u64);
    }
}

/// Why a text is no 8-bit signed integer.
#[derive(Clone, Copy, Debug, PartialEq, Eq, Structural)]
pub enum IntError {
    /// The text is empty.
    Empty,
    /// A character is no digit, or a sign stands alone.
    InvalidDigit,
    /// The number is above 127.
    PosOverflow,
    /// The number is below -128.
    NegOverflow,
}

impl IntError {
    /// The words that describe the error.
    pub open spec fn text(self) -> Seq<char> {
        match self {
            IntError::Empty => "cannot parse integer from empty string"@,
            IntError::InvalidDigit => "invalid digit found in string"@,
            IntError::PosOverflow => "number too large to fit in target type"@,
            IntError::NegOverflow => "number too small to fit in target type"@,
        }
    }

    /// Describes the error in words.
    pub fn message(&self) -> (r: String)
        ensures
            r@ == self.text(),
    {
        match self {
            IntError::Empty => "cannot parse integer from empty string".to_owned(),
            IntError::InvalidDigit => "invalid digit found in string".to_owned(),
            IntError::PosOverflow => "number too large to fit in target type".to_owned(),
            IntError::NegOverflow => "number too small to fit in target type".to_owned(),
        }
    }
}

/// `c` is a decimal digit.
pub open spec fn is_digit(c: char) -> bool {
    '0' <= c <= '9'
}

/// The value of the decimal digit `c`.
pub open spec fn digit_value(c: char) -> int
    recommends
        is_digit(c),
{
    (c as u32) - 48
}

/// Reads the digits of `s` from the left into `acc`, subtracting them where
/// `negative`. The first character that is no digit, or that takes the value
/// out of the range of `i8`, decides the error.
pub open spec fn read_digits(s: Seq<char>, negative: bool, acc: int) -> Result<int, IntError>
    decreases s.len(),
{
    if s.len() == 0 {
        Ok(acc)
    } else if !is_digit(s.first()) {
        Err(IntError::InvalidDigit)
    } else {
        let next = if negative {
            acc * 10 - digit_value(s.first())
        } else {
            acc * 10 + digit_value(s.first())
        };
        if next > 127 {
            Err(IntError::PosOverflow)
        } else if next < -128 {
            Err(IntError::NegOverflow)
        } else {
            read_digits(s.drop_first(), negative, next)
        }
    }
}

/// The 8-bit signed integer that `s` writes: an optional sign, then decimal
/// digits and nothing else.
pub open spec fn i8_of(s: Seq<char>) -> Result<int, IntError> {
    if s.len() == 0 {
        Err(IntError::Empty)
    } else if s.len() == 1 && (s[0] == '+' || s[0] == '-') {
        Err(IntError::InvalidDigit)
    } else if s[0] == '+' {
        read_digits(s.drop_first(), false, 0)
    } else if s[0] == '-' {
        read_digits(s.drop_first(), true, 0)
    } else {
        read_digits(s, false, 0)
    }
}

/// Reads an 8-bit signed integer.
pub fn parse_i8(s: &Vec<char>) -> (r: Result<i8, IntError>)
    ensures
        match r {
            Ok(n) => i8_of(s@) == Ok::<int, IntError>(n as int),
            Err(e) => i8_of(s@) == Err::<int, IntError>(e),
        },
{
    if s.len() == 0 {
        return Err(IntError::Empty);
    }
    let first = s[0];
    if s.len() == 1 && (first == '+' || first == '-') {
        return Err(IntError::InvalidDigit);
    }
    let negative = first == '-';
    let mut i: usize = if first == '+' || first == '-' {
        1
    } else {
        0
    };
    let ghost body = s@.skip(i as int);
    let mut acc: i32 = 0;
    proof {
        assert(s@.skip(1) =~= s@.drop_first());
        assert(s@.skip(0) =~= s@);
        assert(body.skip(0) =~= body);
    }
    let start = i;
    while i < s.len()
        invariant
            start <= i <= s.len(),
            start <= 1,
            body == s@.skip(start as int),
            i8_of(s@) == read_digits(body, negative, 0),
            -128 <= acc <= 127,
            read_digits(body.skip(i - start), negative, acc as int) == read_digits(
                body,
                negative,
                0,
            ),
        decreases s.len() - i,
    {
        let c = s[i];
        proof {
            assert(body.skip(i - start).first() == c);
            assert(body.skip(i - start).drop_first() =~= body.skip(i + 1 - start));
        }
        if !('0' <= c && c <= '9') {
            return Err(IntError::InvalidDigit);
        }
        let d: i32 = ((c as u32) - 48) as i32;
        let next: i32 = if negative {
            acc * 10 - d
        } else {
            acc * 10 + d
        };
        if next > 127 {
            return Err(IntError::PosOverflow);
        }
        if next < -128 {
            return Err(IntError::NegOverflow);
        }
        acc = next;
        i += 1;
    }
    Ok(acc as i8)
}

/// Every character of `s` is a decimal digit.
pub open spec fn all_digits(s: Seq<char>) -> bool {
    forall|i: int| 0 <= i < s.len() ==> is_digit(#[trigger] s[i])
}

/// The number that the digits of `s` write; 0 for no digits.
pub open spec fn digits_value(s: Seq<char>) -> nat
    decreases s.len(),
{
    if s.len() == 0 {
        0
    } else {
        (digits_value(s.drop_last()) * 10 + digit_value(s.last())) as nat
    }
}

/// `s` without a sign at its front.
pub open spec fn unsigned_part(s: Seq<char>) -> Seq<char> {
    if s.len() > 0 && (s[0] == '-' || s[0] == '+') {
        s.drop_first()
    } else {
        s
    }
}

/// `s` writes a decimal value: an optional sign, then digits with at most one
/// decimal point among them, and at least one digit.
pub open spec fn is_decimal_value(s: Seq<char>) -> bool {
    let parts = split_on(unsigned_part(s), '.');
    &&& parts.len() <= 2
    &&& all_digits(parts[0])
    &&& parts.len() == 2 ==> all_digits(parts[1])
    &&& parts[0].len() > 0 || (parts.len() == 2 && parts[1].len() > 0)
}

/// The decimal value that `s` writes, cut off at the decimal point (towards
/// zero) and then held within the range of `i8`.
pub open spec fn truncated_value(s: Seq<char>) -> Option<int> {
    if is_decimal_value(s) {
        let whole = digits_value(split_on(unsigned_part(s), '.')[0]);
        if s[0] == '-' {
            Some(
                if whole > 128 {
                    -128
                } else {
                    -(whole as int)
                },
            )
        } else {
            Some(
                if whole > 127 {
                    127
                } else {
                    whole as int
                },
            )
        }
    } else {
        None
    }
}

/// Tells whether every character of `s` is a digit.
pub fn only_digits(s: &Vec<char>) -> (r: bool)
    ensures
        r == all_digits(s@),
{
    let mut i: usize = 0;
    while i < s.len()
        invariant
            i <= s.len(),
            forall|k: int| 0 <= k < i ==> is_digit(#[trigger] s@[k]),
        decreases s.len() - i,
    {
        let c = s[i];
        if !('0' <= c && c <= '9') {
            return false;
        }
        i += 1;
    }
    true
}

/// The number that the digits of `s` write, or 128 where it is above 128.
fn capped_value(s: &Vec<char>) -> (r: u32)
    requires
        all_digits(s@),
    ensures
        r == if digits_value(s@) > 128 {
            128
        } else {
            digits_value(s@)
        },
{
    let mut acc: u32 = 0;
    let mut i: usize = 0;
    while i < s.len()
        invariant
            i <= s.len(),
            all_digits(s@),
            acc <= 128,
            acc == if digits_value(s@.take(i as int)) > 128 {
                128
            } else {
                digits_value(s@.take(i as int))
            },
        decreases s.len() - i,
    {
        let c = s[i];
        proof {
            assert(is_digit(s@[i as int]));
            assert(s@.take(i + 1).drop_last() =~= s@.take(i as int));
            assert(s@.take(i + 1).last() == c);
        }
        let d: u32 = (c as u32) - 48;
        let next: u32 = acc * 10 + d;
        acc = if next > 128 {
            128
        } else {
            next
        };
        i += 1;
    }
    proof {
        assert(s@.take(s.len() as int) =~= s@);
    }
    acc
}

/// Reads a signed decimal value and cuts it off to an integer score.
pub fn truncate_value(s: &Vec<char>) -> (r: Option<i8>)
    ensures
        match r {
            Some(n) => truncated_value(s@) == Some(n as int),
            None => truncated_value(s@) is None,
        },
{
    let signed = s.len() > 0 && (s[0] == '-' || s[0] == '+');
    let negative = s.len() > 0 && s[0] == '-';
    let mut body: Vec<char> = Vec::new();
    let mut i: usize = if signed {
        1
    } else {
        0
    };
    let start = i;
    while i < s.len()
        invariant
            start <= i <= s.len(),
            body@ == s@.subrange(start as int, i as int),
        decreases s.len() - i,
    {
        body.push(s[i]);
        proof {
            assert(s@.subrange(start as int, i + 1) =~= s@.subrange(start as int, i as int).push(
                s@[i as int],
            ));
        }
        i += 1;
    }
    proof {
        assert(s@.subrange(start as int, s.len() as int) =~= unsigned_part(s@));
    }
    let parts = split(&body, '.');
    proof {
        crate::text::lemma_split_nonempty(body@, '.');
        assert(rows(parts@)[0] == parts@[0]@);
        if parts.len() >= 2 {
            assert(rows(parts@)[1] == parts@[1]@);
        }
    }
    if parts.len() > 2 {
        return None;
    }
    if !only_digits(&parts[0]) {
        return None;
    }
    if parts.len() == 2 && !only_digits(&parts[1]) {
        return None;
    }
    if parts[0].len() == 0 && (parts.len() < 2 || parts[1].len() == 0) {
        return None;
    }
    let whole: u32 = capped_value(&parts[0]);
    if negative {
        Some((0 - (whole as i32)) as i8)
    } else if whole > 127 {
        Some(127)
    } else {
        Some(whole as i8)
    }
}

} // verus!
