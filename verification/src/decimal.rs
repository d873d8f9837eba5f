//! Decimal numbers as text: reading an unsigned number the way the standard
//! integer parsers do, and writing one.

use vstd::prelude::*;

verus! {

/// Why a text is not an unsigned decimal number of the wanted width.
#[derive(Clone, Copy, Debug, PartialEq, Eq, Structural)]
pub enum NumberError {
    /// The text is empty.
    Empty,
    /// A character is not a decimal digit, or the text is a lone sign.
    InvalidDigit,
    /// The number is larger than the target type holds.
    TooLarge,
}

impl NumberError {
    /// The wording the standard library uses for this failure.
    pub fn message(&self) -> (r: &'static str)
        ensures
            r@ == self.message_text(),
    {
        match self {
            NumberError::Empty => "cannot parse integer from empty string",
            NumberError::InvalidDigit => "invalid digit found in string",
            NumberError::TooLarge => "number too large to fit in target type",
        }
    }

    /// The wording for this failure.
    pub open spec fn message_text(&self) -> Seq<char> {
        match self {
            NumberError::Empty => "cannot parse integer from empty string"@,
            NumberError::InvalidDigit => "invalid digit found in string"@,
            NumberError::TooLarge => "number too large to fit in target type"@,
        }
    }
}

/// The value of a decimal digit, if `c` is one.
pub open spec fn digit_value(c: char) -> Option<nat> {
    if '0' <= c && c <= '9' {
        Some((c as u32 - '0' as u32) as nat)
    } else {
        None
    }
}

/// Reads `digits` from the left onto `acc`. The first character that is no
/// digit, or the first digit that carries the value past `max`, decides the
/// error.
pub open spec fn read_digits(digits: Seq<char>, acc: nat, max: nat) -> Result<nat, NumberError>
    decreases digits.len(),
{
    if digits.len() == 0 {
        Ok(acc)
    } else {
        match digit_value(digits[0]) {
            None => Err(NumberError::InvalidDigit),
            Some(d) => if acc * 10 + d > max {
                Err(NumberError::TooLarge)
            } else {
                read_digits(digits.drop_first(), acc * 10 + d, max)
            },
        }
    }
}

/// The unsigned number that `s` spells, no larger than `max`: decimal digits
/// after an optional `+`.
pub open spec fn parse_unsigned(s: Seq<char>, max: nat) -> Result<nat, NumberError> {
    if s.len() == 0 {
        Err(NumberError::Empty)
    } else if s.len() == 1 && (s[0] == '+' || s[0] == '-') {
        Err(NumberError::InvalidDigit)
    } else if s[0] == '+' {
        read_digits(s.drop_first(), 0, max)
    } else {
        read_digits(s, 0, max)
    }
}

/// The number that a run of decimal digits spells.
pub open spec fn digits_value(digits: Seq<char>) -> nat
    decreases digits.len(),
{
    if digits.len() == 0 {
        0
    } else {
        digits_value(digits.drop_last()) * 10 + match digit_value(digits.last()) {
            Some(d) => d,
            None => 0,
        }
    }
}

/// Whether every character of `s` is a decimal digit.
pub open spec fn all_digits(s: Seq<char>) -> bool {
    forall|i: int| 0 <= i < s.len() ==> digit_value(#[trigger] s[i]) is Some
}

proof fn lemma_digits_value_prepend(c: char, rest: Seq<char>, acc: nat)
    requires
        digit_value(c) is Some,
    ensures
        digits_value(seq![c] + rest) + pow10(rest.len() + 1) * acc == digits_value(rest) + pow10(
            rest.len(),
        ) * (acc * 10 + digit_value(c)->0),
    decreases rest.len(),
{
    let whole = seq![c] + rest;
    if rest.len() == 0 {
        assert(whole.drop_last() == Seq::<char>::empty());
        assert(whole.last() == c);
        assert(rest == Seq::<char>::empty());
        assert(digits_value(whole) == digits_value(whole.drop_last()) * 10 + digit_value(c)->0);
        let unit = pow10(0);
        let tens = pow10(1);
        assert(unit == 1 && tens == 10) by {
            reveal_with_fuel(pow10, 2);
        }
        assert(tens * acc == 10 * acc && unit * (acc * 10 + digit_value(c)->0) == acc * 10
            + digit_value(c)->0) by (nonlinear_arith)
            requires
                unit == 1,
                tens == 10,
        ;
    } else {
        assert(whole.drop_last() == seq![c] + rest.drop_last());
        assert(whole.last() == rest.last());
        lemma_digits_value_prepend(c, rest.drop_last(), acc);
        let d = digit_value(c)->0;
        let l = match digit_value(rest.last()) {
            Some(x) => x,
            None => 0,
        };
        let p = pow10((rest.len() - 1) as nat);
        assert(pow10(rest.len()) == 10 * p);
        assert(pow10(rest.len() + 1) == 10 * pow10(rest.len()));
        assert(digits_value(whole) == digits_value(seq![c] + rest.drop_last()) * 10 + l);
        assert(digits_value(rest) == digits_value(rest.drop_last()) * 10 + l);
        assert(digits_value(seq![c] + rest.drop_last()) + (10 * p) * acc == digits_value(
            rest.drop_last(),
        ) + p * (acc * 10 + d));
        assert(digits_value(whole) + (10 * (10 * p)) * acc == digits_value(rest) + (10 * p) * (acc
            * 10 + d)) by (nonlinear_arith)
            requires
                digits_value(whole) == digits_value(seq![c] + rest.drop_last()) * 10 + l,
                digits_value(rest) == digits_value(rest.drop_last()) * 10 + l,
                digits_value(seq![c] + rest.drop_last()) + (10 * p) * acc == digits_value(
                    rest.drop_last(),
                ) + p * (acc * 10 + d),
        ;
        let higher = pow10(rest.len() + 1);
        let lower = pow10(rest.len());
        assert(higher == 10 * (10 * p) && lower == 10 * p);
        assert(higher * acc == (10 * (10 * p)) * acc && lower * (acc * 10 + d) == (10 * p) * (acc * 10
            + d)) by (nonlinear_arith)
            requires
                higher == 10 * (10 * p),
                lower == 10 * p,
        ;
    }
}

/// Ten to the power `n`.
pub open spec fn pow10(n: nat) -> nat
    decreases n,
{
    if n == 0 {
        1
    } else {
        10 * pow10((n - 1) as nat)
    }
}

proof fn lemma_pow10_positive(n: nat)
    ensures
        pow10(n) >= 1,
    decreases n,
{
    if n > 0 {
        lemma_pow10_positive((n - 1) as nat);
    }
}

/// What `read_digits` returns, said without the fold: it succeeds exactly on
/// runs of digits whose value, with the digits already read in front, stays
/// within `max`.
pub proof fn lemma_read_digits(digits: Seq<char>, acc: nat, max: nat)
    requires
        acc <= max,
    ensures
        read_digits(digits, acc, max) is Ok <==> all_digits(digits) && pow10(digits.len()) * acc
            + digits_value(digits) <= max,
        read_digits(digits, acc, max) matches Ok(v) ==> v == pow10(digits.len()) * acc
            + digits_value(digits),
    decreases digits.len(),
{
    if digits.len() == 0 {
        let unit = pow10(0);
        assert(unit * acc == acc) by (nonlinear_arith)
            requires
                unit == 1,
        ;
    } else {
        let c = digits[0];
        let rest = digits.drop_first();
        assert(digits == seq![c] + rest);
        match digit_value(c) {
            None => {
                assert(!all_digits(digits));
            },
            Some(d) => {
                lemma_digits_value_prepend(c, rest, acc);
                lemma_pow10_positive(rest.len());
                let next = acc * 10 + d;
                assert(digits.len() == rest.len() + 1);
                assert(pow10(digits.len()) * acc + digits_value(digits) == digits_value(rest)
                    + pow10(rest.len()) * next);
                assert(all_digits(digits) <==> all_digits(rest)) by {
                    if all_digits(rest) {
                        assert forall|i: int| 0 <= i < digits.len() implies digit_value(
                            #[trigger] digits[i],
                        ) is Some by {
                            if i > 0 {
                                assert(digits[i] == rest[i - 1]);
                            }
                        }
                    }
                    if all_digits(digits) {
                        assert forall|i: int| 0 <= i < rest.len() implies digit_value(
                            #[trigger] rest[i],
                        ) is Some by {
                            assert(rest[i] == digits[i + 1]);
                        }
                    }
                }
                if next > max {
                    assert(pow10(rest.len()) * next >= next) by (nonlinear_arith)
                        requires
                            pow10(rest.len()) >= 1,
                    ;
                } else {
                    lemma_read_digits(rest, next, max);
                }
            },
        }
    }
}

/// `parse_unsigned` succeeds exactly on a non-empty run of decimal digits,
/// with or without one `+` in front, whose value is at most `max`, and then
/// returns that value.
pub proof fn lemma_parse_unsigned(s: Seq<char>, max: nat)
    ensures
        ({
            let digits = if s.len() > 0 && s[0] == '+' {
                s.drop_first()
            } else {
                s
            };
            &&& parse_unsigned(s, max) is Ok <==> digits.len() > 0 && all_digits(digits)
                && digits_value(digits) <= max
            &&& parse_unsigned(s, max) matches Ok(v) ==> v == digits_value(digits)
        }),
{
    let digits = if s.len() > 0 && s[0] == '+' {
        s.drop_first()
    } else {
        s
    };
    lemma_read_digits(digits, 0, max);
    assert(pow10(digits.len()) * 0 == 0) by (nonlinear_arith);
    if s.len() == 1 && s[0] == '-' {
        assert(digit_value(digits[0]) is None);
    }
}

/// Reads `v[from..to]` as an unsigned decimal number no larger than `max`.
pub fn parse_range(v: &Vec<char>, from: usize, to: usize, max: u64) -> (r: Result<
    u64,
    NumberError,
>)
    requires
        from <= to <= v.len(),
    ensures
        match r {
            Ok(n) => parse_unsigned(v@.subrange(from as int, to as int), max as nat) == Ok::<
                nat,
                NumberError,
            >(n as nat),
            Err(e) => parse_unsigned(v@.subrange(from as int, to as int), max as nat) == Err::<
                nat,
                NumberError,
            >(e),
        },
{
    let ghost s = v@.subrange(from as int, to as int);
    if from == to {
        return Err(NumberError::Empty);
    }
    assert(s[0] == v@[from as int]);
    if to - from == 1 && (v[from] == '+' || v[from] == '-') {
        return Err(NumberError::InvalidDigit);
    }
    let start: usize = if v[from] == '+' {
        from + 1
    } else {
        from
    };
    let ghost digits = v@.subrange(start as int, to as int);
    assert(s[0] == '+' ==> s.drop_first() == digits);
    assert(parse_unsigned(s, max as nat) == read_digits(digits, 0, max as nat));
    let mut acc: u64 = 0;
    let mut i: usize = start;
    while i < to
        invariant
            start <= i <= to <= v.len(),
            acc <= max,
            digits == v@.subrange(start as int, to as int),
            parse_unsigned(v@.subrange(from as int, to as int), max as nat) == read_digits(
                digits,
                0,
                max as nat,
            ),
            read_digits(digits, 0, max as nat) == read_digits(
                v@.subrange(i as int, to as int),
                acc as nat,
                max as nat,
            ),
        decreases to - i,
    {
        let ghost rest = v@.subrange(i as int, to as int);
        assert(rest[0] == v@[i as int]);
        assert(rest.drop_first() == v@.subrange(i + 1, to as int));
        let c = v[i];
        if !('0' <= c && c <= '9') {
            return Err(NumberError::InvalidDigit);
        }
        let d: u64 = (c as u32 - '0' as u32) as u64;
        if d > max || acc > (max - d) / 10 {
            assert(acc * 10 + d > max);
            return Err(NumberError::TooLarge);
        }
        assert(acc * 10 + d <= max);
        acc = acc * 10 + d;
        i += 1;
    }
    Ok(acc)
}

/// The character that stands for a digit below ten.
pub open spec fn digit_char(d: nat) -> char {
    if d == 0 {
        '0'
    } else if d == 1 {
        '1'
    } else if d == 2 {
        '2'
    } else if d == 3 {
        '3'
    } else if d == 4 {
        '4'
    } else if d == 5 {
        '5'
    } else if d == 6 {
        '6'
    } else if d == 7 {
        '7'
    } else if d == 8 {
        '8'
    } else {
        '9'
    }
}

/// The decimal digits of `n`, most significant first, without leading zeros.
pub open spec fn decimal_text(n: nat) -> Seq<char>
    decreases n,
{
    if n < 10 {
        seq![digit_char(n)]
    } else {
        decimal_text(n / 10).push(digit_char(n % 10))
    }
}

fn digit_to_char(d: u64) -> (c: char)
    requires
        d < 10,
    ensures
        c == digit_char(d as nat),
        digit_value(c) == Some(d as nat),
{
    if d == 0 {
        '0'
    } else if d == 1 {
        '1'
    } else if d == 2 {
        '2'
    } else if d == 3 {
        '3'
    } else if d == 4 {
        '4'
    } else if d == 5 {
        '5'
    } else if d == 6 {
        '6'
    } else if d == 7 {
        '7'
    } else if d == 8 {
        '8'
    } else {
        '9'
    }
}

/// Writes `n` in decimal.
pub fn format_u64(n: u64) -> (r: String)
    ensures
        r@ == decimal_text(n as nat),
{
    // Digits come out least significant first; `low` holds them in that order.
    let mut low: Vec<char> = Vec::new();
    let mut rest: u64 = n;
    while rest >= 10
        invariant
            decimal_text(n as nat) == decimal_text(rest as nat) + low@.reverse(),
        decreases rest,
    {
        let c = digit_to_char(rest % 10);
        let ghost before = low@;
        low.push(c);
        assert(low@.reverse() == seq![c] + before.reverse());
        assert(decimal_text(rest as nat) == decimal_text((rest / 10) as nat).push(c));
        assert(decimal_text((rest / 10) as nat).push(c) + before.reverse() == decimal_text(
            (rest / 10) as nat,
        ) + (seq![c] + before.reverse()));
        rest = rest / 10;
    }
    let c = digit_to_char(rest);
    let mut out = String::new();
    out.push(c);
    let mut i: usize = low.len();
    while i > 0
        invariant
            i <= low.len(),
            out@ == seq![c] + low@.reverse().take(low.len() - i),
        decreases i,
    {
        i -= 1;
        out.push(low[i]);
        assert(low@.reverse().take(low.len() - i) == low@.reverse().take(low.len() - i - 1).push(
            low@[i as int],
        ));
    }
    assert(low@.reverse().take(low.len() as int) == low@.reverse());
    out
}

} // verus!
