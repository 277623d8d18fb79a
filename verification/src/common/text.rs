//! Numbers as decimal text.

use vstd::prelude::*;
use vstd::string::*;

verus! {

/// The character of the digit `d`.
pub open spec fn digit_char(d: nat) -> char {
    if d == 0 {
        '0'
    } else if d == 1 {
        '1'
    } else if d == 2 {
        '2'
    } else if d == 3 {
        '3'
    } else if d == 4 {
        '4'
    } else if d == 5 {
        '5'
    } else if d == 6 {
        '6'
    } else if d == 7 {
        '7'
    } else if d == 8 {
        '8'
    } else {
        '9'
    }
}

/// The decimal digits of `n`, without leading zeros.
pub open spec fn decimal_chars(n: nat) -> Seq<char>
    decreases n,
{
    if n < 10 {
        seq![digit_char(n)]
    } else {
        decimal_chars(n / 10).push(digit_char(n % 10))
    }
}

/// The text of one digit.
pub fn digit_str(d: u64) -> (text: &'static str)
    requires
        d < 10,
    ensures
        text@ == seq![digit_char(d as nat)],
{
    proof {
        reveal_strlit("0");
        reveal_strlit("1");
        reveal_strlit("2");
        reveal_strlit("3");
        reveal_strlit("4");
        reveal_strlit("5");
        reveal_strlit("6");
        reveal_strlit("7");
        reveal_strlit("8");
        reveal_strlit("9");
    }
    let text = if d == 0 {
        "0"
    } else if d == 1 {
        "1"
    } else if d == 2 {
        "2"
    } else if d == 3 {
        "3"
    } else if d == 4 {
        "4"
    } else if d == 5 {
        "5"
    } else if d == 6 {
        "6"
    } else if d == 7 {
        "7"
    } else if d == 8 {
        "8"
    } else {
        "9"
    };
    assert(text@ =~= seq![digit_char(d as nat)]);
    text
}

/// `n` in decimal.
pub fn decimal_string(n: u64) -> (text: String)
    ensures
        text@ == decimal_chars(n as nat),
    decreases n,
{
    if n < 10 {
        String::from_str(digit_str(n))
    } else {
        let mut text = decimal_string(n / 10);
        text.append(digit_str(n % 10));
        assert(text@ =~= decimal_chars(n as nat));
        text
    }
}

/// The digit that `c` is, if it is one.
pub open spec fn char_digit(c: char) -> Option<nat> {
    if c == '0' {
        Some(0)
    } else if c == '1' {
        Some(1)
    } else if c == '2' {
        Some(2)
    } else if c == '3' {
        Some(3)
    } else if c == '4' {
        Some(4)
    } else if c == '5' {
        Some(5)
    } else if c == '6' {
        Some(6)
    } else if c == '7' {
        Some(7)
    } else if c == '8' {
        Some(8)
    } else if c == '9' {
        Some(9)
    } else {
        None
    }
}

/// Whether `chars` are digits only.
pub open spec fn all_decimal(chars: Seq<char>) -> bool {
    forall|i: int| 0 <= i < chars.len() ==> char_digit(#[trigger] chars[i]) is Some
}

/// The number that the digits `chars` denote; 0 for none.
pub open spec fn digits_number(chars: Seq<char>) -> nat
    decreases chars.len(),
{
    if chars.len() == 0 {
        0
    } else {
        digits_number(chars.drop_last()) * 10 + char_digit(chars.last())->0
    }
}

/// The number that `chars` denote in decimal: at least one digit, and
/// digits only.
pub open spec fn decimal_value(chars: Seq<char>) -> Option<nat> {
    if chars.len() > 0 && all_decimal(chars) {
        Some(digits_number(chars))
    } else {
        None
    }
}

/// The decimal text of a number denotes the number.
pub proof fn lemma_decimal_round_trip(n: nat)
    ensures
        decimal_value(decimal_chars(n)) == Some(n),
    decreases n,
{
    let chars = decimal_chars(n);
    if n < 10 {
        assert(chars.drop_last() =~= Seq::<char>::empty());
        assert(digits_number(chars.drop_last()) == 0);
    } else {
        lemma_decimal_round_trip(n / 10);
        assert(chars.drop_last() =~= decimal_chars(n / 10));
        assert(chars.last() == digit_char(n % 10));
        assert forall|i: int| 0 <= i < chars.len() implies char_digit(#[trigger] chars[i])
            is Some by {
            if i < chars.len() - 1 {
                assert(chars[i] == decimal_chars(n / 10)[i]);
            }
        }
    }
}

/// A prefix of a digit string denotes no more than the whole.
pub proof fn lemma_digits_number_prefix(chars: Seq<char>, k: int)
    requires
        0 <= k <= chars.len(),
    ensures
        digits_number(chars.take(k)) <= digits_number(chars),
    decreases chars.len() - k,
{
    if k == chars.len() {
        assert(chars.take(k) =~= chars);
    } else {
        lemma_digits_number_prefix(chars, k + 1);
        assert(chars.take(k + 1).drop_last() =~= chars.take(k));
    }
}

/// The digit that `c` is.
fn digit_of(c: char) -> (d: Option<u64>)
    ensures
        match d {
            Some(v) => char_digit(c) == Some(v as nat) && v < 10,
            None => char_digit(c) is None,
        },
{
    if c == '0' {
        Some(0)
    } else if c == '1' {
        Some(1)
    } else if c == '2' {
        Some(2)
    } else if c == '3' {
        Some(3)
    } else if c == '4' {
        Some(4)
    } else if c == '5' {
        Some(5)
    } else if c == '6' {
        Some(6)
    } else if c == '7' {
        Some(7)
    } else if c == '8' {
        Some(8)
    } else if c == '9' {
        Some(9)
    } else {
        None
    }
}

/// Reads a number in decimal: digits only, at least one, and a value that
/// 64 bits hold.
pub fn parse_decimal(text: &str) -> (res: Option<u64>)
    ensures
        match decimal_value(text@) {
            Some(n) => if n <= u64::MAX {
                res == Some(n as u64)
            } else {
                res is None
            },
            None => res is None,
        },
{
    let len = text.unicode_len();
    if len == 0 {
        return None;
    }
    let mut sum: u64 = 0;
    let mut i: usize = 0;
    while i < len
        invariant
            i <= len,
            len == text@.len(),
            all_decimal(text@.take(i as int)),
            sum == digits_number(text@.take(i as int)),
        decreases len - i,
    {
        let c = text.get_char(i);
        proof {
            assert(text@.take(i + 1).drop_last() =~= text@.take(i as int));
            assert(text@.take(i + 1).last() == c);
        }
        let d = match digit_of(c) {
            Some(d) => d,
            None => {
                assert(char_digit(text@[i as int]) is None);
                return None;
            },
        };
        if sum > (u64::MAX - d) / 10 {
            proof {
                assert forall|j: int| 0 <= j < i + 1 implies char_digit(
                    #[trigger] text@.take(i + 1)[j],
                ) is Some by {
                    if j < i {
                        assert(text@.take(i + 1)[j] == text@.take(i as int)[j]);
                    }
                }
                assert(digits_number(text@.take(i + 1)) == sum * 10 + d);
                lemma_digits_number_prefix(text@, i + 1);
            }
            return None;
        }
        assert forall|j: int| 0 <= j < i + 1 implies char_digit(#[trigger] text@.take(i + 1)[j])
            is Some by {
            if j < i {
                assert(text@.take(i + 1)[j] == text@.take(i as int)[j]);
            }
        }
        sum = sum * 10 + d;
        i += 1;
    }
    assert(text@.take(i as int) =~= text@);
    Some(sum)
}

} // verus!
