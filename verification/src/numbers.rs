//! Unsigned numbers written in text.

use vstd::prelude::*;

use crate::text::chars_of;

verus! {

/// The character for a digit below sixteen, letters in lower case.
pub open spec fn digit_char(d: nat) -> char {
    if d < 10 {
        (48 + d) as char
    } else {
        (87 + d) as char
    }
}

/// The decimal digits of a number, without leading zeros.
pub open spec fn decimal(n: nat) -> Seq<char>
    decreases n,
{
    if n < 10 {
        seq![digit_char(n)]
    } else {
        decimal(n / 10).push(digit_char(n % 10))
    }
}

/// The decimal text of a number.
pub fn decimal_text(n: u64) -> (r: String)
    ensures
        r@ == decimal(n as nat),
    decreases n,
{
    if n < 10 {
        let mut out = String::new();
        out.push((48 + n as u8) as char);
        assert(out@ =~= decimal(n as nat));
        out
    } else {
        let mut out = decimal_text(n / 10);
        out.push((48 + (n % 10) as u8) as char);
        out
    }
}

/// The value of a digit in the given radix, letters in either case.
pub open spec fn digit_value(c: char, radix: nat) -> Option<nat> {
    let v = if '0' <= c <= '9' {
        (c as u32 - 48) as nat
    } else if 'a' <= c <= 'z' {
        (c as u32 - 87) as nat
    } else if 'A' <= c <= 'Z' {
        (c as u32 - 55) as nat
    } else {
        radix
    };
    if v < radix {
        Some(v)
    } else {
        None
    }
}

/// Why a text is not a number of the wanted size.
#[derive(Debug, Clone, Copy, PartialEq, Eq, Structural)]
pub enum NumberError {
    /// There is no digit at all.
    Empty,
    /// A character is not a digit.
    InvalidDigit,
    /// The number is larger than the largest one accepted.
    TooLarge,
}

impl NumberError {
    /// What is wrong, in words.
    pub open spec fn words(self) -> Seq<char> {
        match self {
            NumberError::Empty => "cannot parse integer from empty string"@,
            NumberError::InvalidDigit => "invalid digit found in string"@,
            NumberError::TooLarge => "number too large to fit in target type"@,
        }
    }

    pub fn message(&self) -> (r: &'static str)
        ensures
            r@ == self.words(),
    {
        match self {
            NumberError::Empty => "cannot parse integer from empty string",
            NumberError::InvalidDigit => "invalid digit found in string",
            NumberError::TooLarge => "number too large to fit in target type",
        }
    }
}

/// The number that the digits read from the left make, or the first
/// obstacle met.
pub open spec fn digits_value(s: Seq<char>, radix: nat, max: nat) -> Result<nat, NumberError>
    decreases s.len(),
{
    if s.len() == 0 {
        Ok(0)
    } else {
        match digits_value(s.drop_last(), radix, max) {
            Err(e) => Err(e),
            Ok(v) => match digit_value(s.last(), radix) {
                None => Err(NumberError::InvalidDigit),
                Some(d) => if v * radix + d <= max {
                    Ok(v * radix + d)
                } else {
                    Err(NumberError::TooLarge)
                },
            },
        }
    }
}

/// The unsigned number that a text stands for: digits, after an optional
/// plus sign.
pub open spec fn number(s: Seq<char>, radix: nat, max: nat) -> Result<nat, NumberError> {
    if s.len() == 0 {
        Err(NumberError::Empty)
    } else if s[0] == '+' {
        if s.len() == 1 {
            Err(NumberError::InvalidDigit)
        } else {
            digits_value(s.drop_first(), radix, max)
        }
    } else {
        digits_value(s, radix, max)
    }
}

/// The value of a digit in the given radix.
fn digit_of(c: char, radix: u32) -> (r: Option<u32>)
    requires
        2 <= radix <= 36,
    ensures
        match r {
            Some(v) => digit_value(c, radix as nat) == Some(v as nat) && v < radix,
            None => digit_value(c, radix as nat) is None,
        },
{
    let v: u32 = if '0' <= c && c <= '9' {
        c as u32 - 48
    } else if 'a' <= c && c <= 'z' {
        c as u32 - 87
    } else if 'A' <= c && c <= 'Z' {
        c as u32 - 55
    } else {
        radix
    };
    if v < radix {
        Some(v)
    } else {
        None
    }
}

/// Reads an unsigned number of at most `max` from a text.
pub fn parse_number(s: &str, radix: u32, max: u64) -> (r: Result<u64, NumberError>)
    requires
        2 <= radix <= 36,
    ensures
        match r {
            Ok(v) => number(s@, radix as nat, max as nat) == Ok::<nat, NumberError>(v as nat)
                && v <= max,
            Err(e) => number(s@, radix as nat, max as nat) == Err::<nat, NumberError>(e),
        },
{
    let chars = chars_of(s);
    if chars.len() == 0 {
        return Err(NumberError::Empty);
    }
    let start: usize = if chars[0] == '+' {
        1
    } else {
        0
    };
    if chars.len() == start {
        return Err(NumberError::InvalidDigit);
    }
    let ghost digits = s@.skip(start as int);
    assert(digits =~= if start == 1 {
        s@.drop_first()
    } else {
        s@
    });
    let mut value: u64 = 0;
    let mut i: usize = start;
    assert(digits.take(0).len() == 0);
    while i < chars.len()
        invariant
            start <= i <= chars.len(),
            2 <= radix <= 36,
            chars@ == s@,
            digits == s@.skip(start as int),
            start <= 1,
            number(s@, radix as nat, max as nat) == digits_value(digits, radix as nat, max as nat),
            digits_value(digits.take(i - start), radix as nat, max as nat) == Ok::<
                nat,
                NumberError,
            >(value as nat),
            value <= max,
        decreases chars.len() - i,
    {
        proof {
            assert(digits.take(i - start + 1).drop_last() =~= digits.take(i - start));
            assert(digits.take(i - start + 1).last() == chars@[i as int]);
        }
        let read = digit_of(chars[i], radix);
        let ghost upto = digits_value(digits.take(i - start + 1), radix as nat, max as nat);
        match read {
            None => {
                proof {
                    assert(upto == Err::<nat, NumberError>(NumberError::InvalidDigit));
                    lemma_error_stays(digits, i - start + 1, radix as nat, max as nat);
                }
                return Err(NumberError::InvalidDigit);
            },
            Some(d) => {
                assert(value * radix <= 0xffff_ffff_ffff_ffff * 36) by (nonlinear_arith)
                    requires
                        value <= 0xffff_ffff_ffff_ffff,
                        radix <= 36,
                ;
                let next: u128 = (value as u128) * (radix as u128) + (d as u128);
                assert(next == value as nat * radix as nat + d as nat);
                if next > max as u128 {
                    proof {
                        assert(upto == Err::<nat, NumberError>(NumberError::TooLarge));
                        lemma_error_stays(digits, i - start + 1, radix as nat, max as nat);
                    }
                    return Err(NumberError::TooLarge);
                }
                value = next as u64;
            },
        }
        i = i + 1;
    }
    assert(digits.take(i - start) =~= digits);
    Ok(value)
}

proof fn lemma_error_stays(s: Seq<char>, upto: int, radix: nat, max: nat)
    requires
        0 <= upto <= s.len(),
        digits_value(s.take(upto), radix, max) is Err,
    ensures
        digits_value(s, radix, max) == digits_value(s.take(upto), radix, max),
    decreases s.len(),
{
    if upto == s.len() {
        assert(s.take(upto) =~= s);
    } else {
        assert(s.drop_last().take(upto) =~= s.take(upto));
        lemma_error_stays(s.drop_last(), upto, radix, max);
    }
}

proof fn lemma_decimal_shape(n: nat)
    ensures
        decimal(n).len() >= 1,
        decimal(n)[0] != '+',
        digits_value(decimal(n), 10, n) == Ok::<nat, NumberError>(n),
    decreases n,
{
    if n < 10 {
        let s = decimal(n);
        assert(s.drop_last() =~= Seq::<char>::empty());
        assert(digits_value(s.drop_last(), 10, n) == Ok::<nat, NumberError>(0));
        assert(digit_value(digit_char(n), 10) == Some(n));
    } else {
        lemma_decimal_shape(n / 10);
        let s = decimal(n);
        assert(s.drop_last() =~= decimal(n / 10));
        lemma_larger_max(decimal(n / 10), 10, n / 10, n);
        assert(digit_value(digit_char(n % 10), 10) == Some(n % 10));
        assert((n / 10) * 10 + n % 10 == n);
    }
}

/// The decimal text of a number is made of digits.
pub proof fn lemma_decimal_is_digits(n: nat)
    ensures
        decimal(n).len() >= 1,
        forall|i: int| 0 <= i < decimal(n).len() ==> '0' <= #[trigger] decimal(n)[i] <= '9',
    decreases n,
{
    if n >= 10 {
        lemma_decimal_is_digits(n / 10);
        let front = decimal(n / 10);
        assert forall|i: int| 0 <= i < decimal(n).len() implies '0' <= #[trigger] decimal(n)[i]
            <= '9' by {
            if i < front.len() {
                assert(decimal(n)[i] == front[i]);
            }
        }
    }
}

proof fn lemma_larger_max(s: Seq<char>, radix: nat, small: nat, large: nat)
    requires
        small <= large,
        digits_value(s, radix, small) is Ok,
    ensures
        digits_value(s, radix, large) == digits_value(s, radix, small),
    decreases s.len(),
{
    if s.len() > 0 {
        lemma_larger_max(s.drop_last(), radix, small, large);
    }
}

/// Reading back the decimal text of a number gives that number.
pub proof fn decimal_reads_back(n: nat, max: nat)
    requires
        n <= max,
    ensures
        number(decimal(n), 10, max) == Ok::<nat, NumberError>(n),
{
    lemma_decimal_shape(n);
    lemma_larger_max(decimal(n), 10, n, max);
}

/// Reads a decimal `u16`.
pub fn parse_u16_text(s: &str) -> (r: Result<u16, NumberError>)
    ensures
        match r {
            Ok(v) => number(s@, 10, u16::MAX as nat) == Ok::<nat, NumberError>(v as nat),
            Err(e) => number(s@, 10, u16::MAX as nat) == Err::<nat, NumberError>(e),
        },
{
    match parse_number(s, 10, u16::MAX as u64) {
        Ok(v) => Ok(v as u16),
        Err(e) => Err(e),
    }
}

/// Reads a decimal `u32`.
pub fn parse_u32_text(s: &str) -> (r: Result<u32, NumberError>)
    ensures
        match r {
            Ok(v) => number(s@, 10, u32::MAX as nat) == Ok::<nat, NumberError>(v as nat),
            Err(e) => number(s@, 10, u32::MAX as nat) == Err::<nat, NumberError>(e),
        },
{
    match parse_number(s, 10, u32::MAX as u64) {
        Ok(v) => Ok(v as u32),
        Err(e) => Err(e),
    }
}

/// The decimal text of an integer.
pub open spec fn signed_decimal(n: int) -> Seq<char> {
    if n < 0 {
        "-"@ + decimal((-n) as nat)
    } else {
        decimal(n as nat)
    }
}

/// The decimal text of an integer.
pub fn signed_text(n: i64) -> (r: String)
    ensures
        r@ == signed_decimal(n as int),
{
    if n < 0 {
        let mut out = "-".to_owned();
        let digits = decimal_text((-(n + 1)) as u64 + 1);
        out.append(digits.as_str());
        out
    } else {
        decimal_text(n as u64)
    }
}

/// A number is written with its last digit behind the others.
pub proof fn numbers_are_written_in_tens(n: nat, d: nat)
    requires
        d < 10,
    ensures
        decimal(d) == seq![(48 + d) as char],
        n > 0 ==> decimal(10 * n + d) == decimal(n).push((48 + d) as char),
        n > 0 ==> signed_decimal(-(n as int)) == seq!['-'] + decimal(n),
        signed_decimal(n as int) == decimal(n),
{
    reveal_strlit("-");
    assert("-"@ =~= seq!['-']);
    if n > 0 {
        assert((10 * n + d) / 10 == n && (10 * n + d) % 10 == d) by (nonlinear_arith)
            requires
                d < 10,
        ;
    }
}

/// The digits, and the letters behind them, stand for the numbers from zero on;
/// nothing else does.
pub proof fn digits_stand_for_numbers(c: char)
    ensures
        '0' <= c <= '9' ==> digit_value(c, 10) == Some((c as u32 - 48) as nat) && digit_value(c, 16)
            == Some((c as u32 - 48) as nat),
        'a' <= c <= 'f' ==> digit_value(c, 16) == Some((c as u32 - 87) as nat) && digit_value(c, 10)
            is None,
        'A' <= c <= 'F' ==> digit_value(c, 16) == Some((c as u32 - 55) as nat) && digit_value(c, 10)
            is None,
        !('0' <= c <= '9') ==> digit_value(c, 10) is None,
        !('0' <= c <= '9') && !('a' <= c <= 'f') && !('A' <= c <= 'F') ==> digit_value(c, 16)
            is None,
{
}

/// One more digit makes a number so many times larger, as far as it may go.
pub proof fn one_more_digit(s: Seq<char>, c: char, radix: nat, max: nat)
    requires
        s.len() > 0,
        s != seq!['+'],
    ensures
        match (number(s, radix, max), digit_value(c, radix)) {
            (Ok(n), Some(d)) => number(s.push(c), radix, max) == if n * radix + d <= max {
                Ok::<nat, NumberError>((n * radix + d) as nat)
            } else {
                Err(NumberError::TooLarge)
            },
            (Ok(_), None) => number(s.push(c), radix, max) == Err::<nat, NumberError>(
                NumberError::InvalidDigit,
            ),
            (Err(e), _) => number(s.push(c), radix, max) == Err::<nat, NumberError>(e),
        },
        number(Seq::empty(), radix, max) == Err::<nat, NumberError>(NumberError::Empty),
        s[0] != '+' ==> number(seq!['+'] + s, radix, max) == number(s, radix, max),
{
    if s[0] == '+' {
        if s.len() == 1 {
            assert(s =~= seq!['+']);
        }
        assert(s.push(c).drop_first() =~= s.drop_first().push(c));
        assert(s.drop_first().push(c).drop_last() =~= s.drop_first());
    } else {
        assert(s.push(c).drop_last() =~= s);
        assert((seq!['+'] + s).drop_first() =~= s);
    }
}

} // verus!
