//! Decimal numerals: how a number is written and how a numeral is read.

use vstd::prelude::*;

verus! {

/// The character that writes the digit `d`, for `d` from 0 to 9.
pub open spec fn digit_char(d: nat) -> char {
    (48 + d) as u8 as char
}

/// The decimal numeral of `n`, without leading zeros.
pub open spec fn decimal(n: nat) -> Seq<char>
    decreases n,
{
    if n < 10 {
        seq![digit_char(n)]
    } else {
        decimal(n / 10).push(digit_char(n % 10))
    }
}

/// The decimal numeral of `n`, with a leading zero where it has one digit.
pub open spec fn two_digits(n: nat) -> Seq<char> {
    if n < 10 {
        seq!['0'] + decimal(n)
    } else {
        decimal(n)
    }
}

/// Whether `c` is one of the ten decimal digits.
pub open spec fn is_digit(c: char) -> bool {
    48 <= c as u32 <= 57
}

/// The number that the digit `c` writes.
pub open spec fn digit_value(c: char) -> nat {
    (c as u32 - 48) as nat
}

/// Whether `s` holds decimal digits only.
pub open spec fn all_digits(s: Seq<char>) -> bool {
    forall|i: int| 0 <= i < s.len() ==> is_digit(#[trigger] s[i])
}

/// The number that the digits of `s` write, most significant first.
pub open spec fn decimal_value(s: Seq<char>) -> nat
    decreases s.len(),
{
    if s.len() == 0 {
        0
    } else {
        decimal_value(s.drop_last()) * 10 + digit_value(s.last())
    }
}

/// Why a text is no numeral.
#[derive(Debug, Clone, Copy, PartialEq, Eq, Structural)]
pub enum NumeralFault {
    /// The text is empty.
    Empty,
    /// The text holds a character that is no decimal digit.
    InvalidDigit,
    /// The digits write a number that does not fit in 32 bits.
    TooLarge,
}

/// The number of decimal digits that `s` begins with.
pub open spec fn digits_end(s: Seq<char>) -> int
    decreases s.len(),
{
    if s.len() == 0 || !is_digit(s[0]) {
        0
    } else {
        1 + digits_end(s.drop_first())
    }
}

/// What keeps `s` from being a numeral, if anything does. A text is read
/// from the left: digits that write too large a number are found before a
/// character that is no digit, if they stand before it.
pub open spec fn numeral_fault(s: Seq<char>) -> Option<NumeralFault> {
    if s.len() == 0 {
        Some(NumeralFault::Empty)
    } else if decimal_value(s.take(digits_end(s))) > u32::MAX {
        Some(NumeralFault::TooLarge)
    } else if !all_digits(s) {
        Some(NumeralFault::InvalidDigit)
    } else {
        None
    }
}

/// The number that `s` writes: `s` is one or more decimal digits, with no sign
/// and nothing else, and the number fits in 32 bits.
pub open spec fn parse_number(s: Seq<char>) -> Result<u32, NumeralFault> {
    match numeral_fault(s) {
        Some(fault) => Err(fault),
        None => Ok(decimal_value(s) as u32),
    }
}

/// The leading digits of a text end within it, before a character that is no
/// digit, and no run of digits from the start is longer.
pub proof fn lemma_digits_end(s: Seq<char>)
    ensures
        0 <= digits_end(s) <= s.len(),
        all_digits(s.take(digits_end(s))),
        digits_end(s) < s.len() ==> !is_digit(s[digits_end(s)]),
        forall|j: int| 0 <= j <= s.len() && all_digits(#[trigger] s.take(j)) ==> j <= digits_end(s),
    decreases s.len(),
{
    if s.len() > 0 && is_digit(s[0]) {
        let tail = s.drop_first();
        lemma_digits_end(tail);
        let d = digits_end(tail);
        assert forall|i: int| 0 <= i < d + 1 implies is_digit(#[trigger] s.take(d + 1)[i]) by {
            if i > 0 {
                assert(s.take(d + 1)[i] == tail.take(d)[i - 1]);
            }
        }
        assert forall|j: int| 0 <= j <= s.len() && all_digits(#[trigger] s.take(j)) implies j <= d
            + 1 by {
            if j > 0 {
                assert forall|i: int| 0 <= i < j - 1 implies is_digit(
                    #[trigger] tail.take(j - 1)[i],
                ) by {
                    assert(tail.take(j - 1)[i] == s.take(j)[i + 1]);
                }
                assert(all_digits(tail.take(j - 1)));
            }
        }
    } else {
        assert forall|j: int| 0 <= j <= s.len() && all_digits(#[trigger] s.take(j)) implies j
            <= 0 by {
            if j > 0 {
                assert(s.take(j)[0] == s[0]);
            }
        }
    }
}

/// A text is a numeral exactly where it is one or more decimal digits that
/// write a number of 32 bits.
pub proof fn lemma_numerals(s: Seq<char>)
    ensures
        numeral_fault(s) is None <==> s.len() > 0 && all_digits(s) && decimal_value(s) <= u32::MAX,
{
    lemma_digits_end(s);
    if s.len() > 0 && all_digits(s) {
        assert(s.take(s.len() as int) =~= s);
        assert(digits_end(s) == s.len());
    }
}

/// A numeral never gets smaller when digits are appended to it.
pub proof fn lemma_decimal_value_grows(s: Seq<char>, k: int)
    requires
        0 <= k <= s.len(),
    ensures
        decimal_value(s.take(k)) <= decimal_value(s),
    decreases s.len() - k,
{
    if k == s.len() {
        assert(s.take(k) =~= s);
    } else {
        lemma_decimal_value_grows(s, k + 1);
        assert(s.take(k + 1).drop_last() =~= s.take(k));
    }
}

/// Reading the numeral of a number gives the number back.
pub proof fn lemma_decimal_round_trip(n: nat)
    ensures
        decimal(n).len() > 0,
        all_digits(decimal(n)),
        decimal_value(decimal(n)) == n,
        n <= u32::MAX ==> parse_number(decimal(n)) == Ok::<u32, NumeralFault>(n as u32),
    decreases n,
{
    let s: Seq<char> = decimal(n);
    if n < 10 {
        assert(s.drop_last() =~= Seq::<char>::empty());
        assert(decimal_value(s.drop_last()) == 0);
    } else {
        lemma_decimal_round_trip(n / 10);
        assert(s.drop_last() =~= decimal(n / 10));
        assert(s.last() == digit_char(n % 10));
        assert forall|i: int| 0 <= i < s.len() implies is_digit(#[trigger] s[i]) by {
            if i < s.len() - 1 {
                assert(s[i] == decimal(n / 10)[i]);
            }
        }
    }
    lemma_numerals(s);
}

/// The one-character text of a digit.
fn digit_str(d: u32) -> (s: &'static str)
    requires
        d < 10,
    ensures
        s@ == seq![digit_char(d as nat)],
{
    let s: &'static str = match d {
        0 => "0",
        1 => "1",
        2 => "2",
        3 => "3",
        4 => "4",
        5 => "5",
        6 => "6",
        7 => "7",
        8 => "8",
        _ => "9",
    };
    proof {
        reveal_strlit("0");
        reveal_strlit("1");
        reveal_strlit("2");
        reveal_strlit("3");
        reveal_strlit("4");
        reveal_strlit("5");
        reveal_strlit("6");
        reveal_strlit("7");
        reveal_strlit("8");
        reveal_strlit("9");
        assert(s@ =~= seq![digit_char(d as nat)]);
    }
    s
}

/// Appends the decimal numeral of `n` to `out`.
pub fn push_decimal(out: &mut String, n: u32)
    ensures
        final(out)@ == old(out)@ + decimal(n as nat),
    decreases n,
{
    if n >= 10 {
        push_decimal(out, n / 10);
    }
    out.append(digit_str(n % 10));
    assert(out@ =~= old(out)@ + decimal(n as nat));
}

/// Appends to `out` the decimal numeral of `n`, at least two digits long.
pub fn push_two_digits(out: &mut String, n: u32)
    ensures
        final(out)@ == old(out)@ + two_digits(n as nat),
{
    if n < 10 {
        out.append("0");
        proof {
            reveal_strlit("0");
            assert("0"@ =~= seq!['0']);
        }
    }
    push_decimal(out, n);
    assert(out@ =~= old(out)@ + two_digits(n as nat));
}

/// Reads a numeral: computes `parse_number`.
pub fn parse_decimal(s: &str) -> (parsed: Result<u32, NumeralFault>)
    ensures
        parsed == parse_number(s@),
{
    let n: usize = s.unicode_len();
    if n == 0 {
        return Err(NumeralFault::Empty);
    }
    let mut value: u64 = 0;
    let mut i: usize = 0;
    proof {
        assert(s@.take(0) =~= Seq::<char>::empty());
    }
    while i < n
        invariant
            n == s@.len(),
            n > 0,
            i <= n,
            all_digits(s@.take(i as int)),
            value == decimal_value(s@.take(i as int)),
            value <= u32::MAX,
        decreases n - i,
    {
        let c: char = s.get_char(i);
        let u: u32 = c as u32;
        proof {
            lemma_digits_end(s@);
            assert(s@.take(i as int + 1).drop_last() =~= s@.take(i as int));
            assert(s@.take(i as int + 1).last() == c);
        }
        if u < 48 || u > 57 {
            proof {
                assert(!is_digit(s@[i as int]));
                assert(!all_digits(s@));
                let d: int = digits_end(s@);
                if d > i {
                    assert(s@.take(d)[i as int] == s@[i as int]);
                }
                assert(d == i);
            }
            return Err(NumeralFault::InvalidDigit);
        }
        proof {
            assert forall|j: int| 0 <= j < i + 1 implies is_digit(
                #[trigger] s@.take(i as int + 1)[j],
            ) by {
                if j < i {
                    assert(s@.take(i as int + 1)[j] == s@.take(i as int)[j]);
                }
            }
        }
        value = value * 10 + (u - 48) as u64;
        if value > 0xFFFF_FFFF {
            proof {
                let lead: Seq<char> = s@.take(digits_end(s@));
                assert(i + 1 <= digits_end(s@));
                lemma_decimal_value_grows(lead, i as int + 1);
                assert(lead.take(i as int + 1) =~= s@.take(i as int + 1));
            }
            return Err(NumeralFault::TooLarge);
        }
        i = i + 1;
    }
    proof {
        assert(s@.take(n as int) =~= s@);
        lemma_numerals(s@);
    }
    Ok(value as u32)
}

} // verus!
