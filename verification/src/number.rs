//! Port numbers in decimal: reading them from text and writing them out.

use vstd::prelude::*;
use crate::text::chars_of;

verus! {

/// Why a text is not a 16-bit decimal number.
#[derive(Debug, Clone, Copy, PartialEq, Eq, Structural)]
pub enum NumberError {
    /// There is no text.
    Empty,
    /// A character is not a digit, or there are no digits.
    InvalidDigit,
    /// The number is above 65535.
    TooLarge,
}

impl NumberError {
    /// The error in words.
    pub open spec fn text(self) -> Seq<char> {
        match self {
            NumberError::Empty => "cannot parse integer from empty string"@,
            NumberError::InvalidDigit => "invalid digit found in string"@,
            NumberError::TooLarge => "number too large to fit in target type"@,
        }
    }

    /// The error in words.
    pub fn describe(&self) -> (r: String)
        ensures
            r@ == self.text(),
    {
        match self {
            NumberError::Empty => "cannot parse integer from empty string".to_owned(),
            NumberError::InvalidDigit => "invalid digit found in string".to_owned(),
            NumberError::TooLarge => "number too large to fit in target type".to_owned(),
        }
    }
}

/// Whether `c` is an ASCII digit.
pub open spec fn is_digit(c: char) -> bool {
    '0' <= c <= '9'
}

/// Whether `s` consists of digits.
pub open spec fn all_digits(s: Seq<char>) -> bool {
    forall|i: int| 0 <= i < s.len() ==> is_digit(#[trigger] s[i])
}

/// The number that a digit stands for.
pub open spec fn digit_value(c: char) -> int {
    c as int - '0' as int
}

/// The number that a sequence of digits stands for.
pub open spec fn decimal_value(s: Seq<char>) -> int
    decreases s.len(),
{
    if s.len() == 0 {
        0
    } else {
        10 * decimal_value(s.drop_last()) + digit_value(s.last())
    }
}

/// Reading digits from the left; the first character at which the reading
/// goes wrong decides the error.
pub open spec fn read_digits(s: Seq<char>) -> Result<u16, NumberError>
    decreases s.len(),
{
    if s.len() == 0 {
        Ok(0)
    } else {
        match read_digits(s.drop_last()) {
            Err(e) => Err(e),
            Ok(n) => if !is_digit(s.last()) {
                Err(NumberError::InvalidDigit)
            } else if 10 * n + digit_value(s.last()) > 65535 {
                Err(NumberError::TooLarge)
            } else {
                Ok((10 * n + digit_value(s.last())) as u16)
            },
        }
    }
}

/// A 16-bit number: an optional `+` and at least one digit.
pub open spec fn read_u16(s: Seq<char>) -> Result<u16, NumberError> {
    if s.len() == 0 {
        Err(NumberError::Empty)
    } else if s[0] != '+' {
        read_digits(s)
    } else if s.len() == 1 {
        Err(NumberError::InvalidDigit)
    } else {
        read_digits(s.drop_first())
    }
}

/// The digit that stands for `d`.
pub open spec fn digit_text(d: int) -> char {
    ('0' as int + d) as char
}

/// `n` in decimal, without leading zeros.
pub open spec fn decimal_text(n: nat) -> Seq<char>
    decreases n,
{
    if n < 10 {
        seq![digit_text(n as int)]
    } else {
        decimal_text(n / 10).push(digit_text((n % 10) as int))
    }
}

/// Whether `c` is an ASCII digit.
pub fn is_ascii_digit(c: char) -> (r: bool)
    ensures
        r == is_digit(c),
{
    '0' <= c && c <= '9'
}

/// Reads a 16-bit decimal number.
pub fn parse_u16(s: &str) -> (r: Result<u16, NumberError>)
    ensures
        r == read_u16(s@),
{
    let cs = chars_of(s);
    if cs.len() == 0 {
        return Err(NumberError::Empty);
    }
    let start: usize = if cs[0] == '+' { 1 } else { 0 };
    if start == 1 && cs.len() == 1 {
        return Err(NumberError::InvalidDigit);
    }
    let ghost digits = s@.skip(start as int);
    assert(start == 0 ==> digits == s@);
    assert(start == 1 ==> digits == s@.drop_first());
    let mut n: u16 = 0;
    let mut i: usize = start;
    while i < cs.len()
        invariant
            start <= i <= cs.len(),
            cs@ == s@,
            digits == s@.skip(start as int),
            read_u16(s@) == read_digits(digits),
            read_digits(digits.take(i - start)) == Ok::<u16, NumberError>(n),
        decreases cs.len() - i,
    {
        let ghost before = digits.take(i - start);
        let ghost upto = digits.take(i + 1 - start);
        assert(upto.drop_last() == before);
        assert(upto.last() == cs@[i as int]);
        if !is_ascii_digit(cs[i]) {
            proof {
                lemma_read_digits_error(digits, i + 1 - start);
            }
            return Err(NumberError::InvalidDigit);
        }
        let wide: u32 = 10 * (n as u32) + (cs[i] as u32 - '0' as u32);
        if wide > 65535 {
            proof {
                lemma_read_digits_error(digits, i + 1 - start);
            }
            return Err(NumberError::TooLarge);
        }
        n = wide as u16;
        i += 1;
    }
    assert(digits.take(i - start) == digits);
    Ok(n)
}

/// An error in a prefix is the error of the whole.
proof fn lemma_read_digits_error(s: Seq<char>, k: int)
    requires
        0 <= k <= s.len(),
        read_digits(s.take(k)) is Err,
    ensures
        read_digits(s) == read_digits(s.take(k)),
    decreases s.len(),
{
    if k == s.len() {
        assert(s.take(k) == s);
    } else {
        assert(s.drop_last().take(k) == s.take(k));
        lemma_read_digits_error(s.drop_last(), k);
    }
}

/// Writes `n` in decimal.
pub fn decimal(n: u16) -> (r: String)
    ensures
        r@ == decimal_text(n as nat),
    decreases n,
{
    let last: char = (48u8 + (n % 10) as u8) as char;
    let mut r: String = if n < 10 {
        String::new()
    } else {
        decimal(n / 10)
    };
    r.push(last);
    r
}

/// A text is read as the number `n` exactly when, after an optional `+`, it
/// consists of digits, at least one, that stand for `n`.
pub proof fn law_read_u16(s: Seq<char>, n: u16)
    ensures
        read_u16(s) == Ok::<u16, NumberError>(n) <==> {
            let digits = if s.len() > 0 && s[0] == '+' { s.drop_first() } else { s };
            digits.len() > 0 && all_digits(digits) && decimal_value(digits) == n
        },
{
    let digits = if s.len() > 0 && s[0] == '+' { s.drop_first() } else { s };
    lemma_read_digits(digits, n);
}

proof fn lemma_read_digits(s: Seq<char>, n: u16)
    ensures
        read_digits(s) == Ok::<u16, NumberError>(n) <==> all_digits(s) && decimal_value(s) == n,
    decreases s.len(),
{
    if s.len() > 0 {
        let init = s.drop_last();
        assert(s =~= init.push(s.last()));
        if all_digits(s) {
            assert(is_digit(s[s.len() - 1]));
            assert forall|i: int| 0 <= i < init.len() implies is_digit(#[trigger] init[i]) by {
                assert(is_digit(s[i]));
            }
            lemma_decimal_value_nonnegative(init);
            if decimal_value(s) == n {
                assert(decimal_value(init) <= 65535);
                lemma_read_digits(init, decimal_value(init) as u16);
            }
        }
        if let Ok(m) = read_digits(init) {
            lemma_read_digits(init, m);
            if is_digit(s.last()) {
                assert forall|i: int| 0 <= i < s.len() implies is_digit(#[trigger] s[i]) by {
                    if i < init.len() {
                        assert(is_digit(init[i]));
                    }
                }
            }
        }
    }
}

proof fn lemma_decimal_value_nonnegative(s: Seq<char>)
    requires
        all_digits(s),
    ensures
        decimal_value(s) >= 0,
    decreases s.len(),
{
    if s.len() > 0 {
        let init = s.drop_last();
        assert(is_digit(s[s.len() - 1]));
        assert forall|i: int| 0 <= i < init.len() implies is_digit(#[trigger] init[i]) by {
            assert(is_digit(s[i]));
        }
        lemma_decimal_value_nonnegative(init);
    }
}

/// Writing a port number, which takes no leading zeros, and reading it back
/// gives the same number.
pub proof fn law_decimal_round_trip(n: u16)
    ensures
        read_u16(decimal_text(n as nat)) == Ok::<u16, NumberError>(n),
        all_digits(decimal_text(n as nat)),
        decimal_text(n as nat).len() > 0,
        decimal_text(n as nat).len() == 1 || decimal_text(n as nat)[0] != '0',
{
    lemma_decimal_text(n as nat);
    let s = decimal_text(n as nat);
    assert(is_digit(s[0]));
    lemma_read_digits(s, n);
}

pub proof fn lemma_decimal_text(n: nat)
    ensures
        decimal_text(n).len() > 0,
        all_digits(decimal_text(n)),
        decimal_value(decimal_text(n)) == n,
        decimal_text(n)[0] == '0' ==> n == 0,
        n < 10 ==> decimal_text(n).len() == 1,
    decreases n,
{
    let s = decimal_text(n);
    if n < 10 {
        assert(s.drop_last() =~= Seq::<char>::empty());
        assert(decimal_value(s.drop_last()) == 0);
        assert(s.last() == digit_text(n as int));
    } else {
        lemma_decimal_text(n / 10);
        assert(s.drop_last() =~= decimal_text(n / 10));
        assert(s.last() == digit_text((n % 10) as int));
        assert forall|i: int| 0 <= i < s.len() implies is_digit(#[trigger] s[i]) by {
            if i < s.len() - 1 {
                assert(is_digit(decimal_text(n / 10)[i]));
            }
        }
    }
}

/// An empty text is no number, and neither is a `+` alone; digits that stand
/// for more than 65535 are too large; a text is refused for a character that
/// is no digit where the digits before it stand for no more than that.
pub proof fn law_number_errors(digits: Seq<char>, c: char, rest: Seq<char>)
    requires
        digits.len() > 0,
        forall|i: int| 0 <= i < digits.len() ==> '0' <= #[trigger] digits[i] <= '9',
        c < '0' || '9' < c,
    ensures
        read_u16(Seq::empty()) == Err::<u16, NumberError>(NumberError::Empty),
        read_u16(seq!['+']) == Err::<u16, NumberError>(NumberError::InvalidDigit),
        decimal_value(digits) > 65535 ==> read_u16(digits) == Err::<u16, NumberError>(
            NumberError::TooLarge,
        ),
        decimal_value(digits) <= 65535 ==> read_u16(digits.push(c) + rest) == Err::<
            u16,
            NumberError,
        >(NumberError::InvalidDigit),
        c != '+' ==> read_u16(seq![c] + rest) == Err::<u16, NumberError>(NumberError::InvalidDigit),
{
    assert(all_digits(digits));
    if decimal_value(digits) > 65535 {
        lemma_too_large(digits);
    } else {
        lemma_decimal_value_nonnegative(digits);
        lemma_read_digits(digits, decimal_value(digits) as u16);
        let whole = digits.push(c) + rest;
        let k = digits.len() as int + 1;
        assert(whole.take(k) == digits.push(c));
        assert(digits.push(c).drop_last() == digits);
        lemma_read_digits_error(whole, k);
        assert(whole[0] == digits[0]);
    }
    let single = seq![c] + rest;
    assert(single.take(1) == seq![c]);
    assert(seq![c].drop_last() == Seq::<char>::empty());
    assert(read_digits(Seq::<char>::empty()) == Ok::<u16, NumberError>(0));
    lemma_read_digits_error(single, 1);
}

proof fn lemma_too_large(digits: Seq<char>)
    requires
        all_digits(digits),
        decimal_value(digits) > 65535,
    ensures
        read_digits(digits) == Err::<u16, NumberError>(NumberError::TooLarge),
    decreases digits.len(),
{
    let init = digits.drop_last();
    assert(is_digit(digits[digits.len() - 1]));
    assert forall|i: int| 0 <= i < init.len() implies is_digit(#[trigger] init[i]) by {
        assert(is_digit(digits[i]));
    }
    if decimal_value(init) > 65535 {
        lemma_too_large(init);
    } else {
        lemma_decimal_value_nonnegative(init);
        lemma_read_digits(init, decimal_value(init) as u16);
    }
}

} // verus!
