//! Decimal numbers: reading and writing them.

use vstd::prelude::*;
use vstd::std_specs::iter::IteratorSpec;
use vstd::string::{StrSliceExecFns, StringExecFns};

verus! {

/// Whether `c` is one of the digits 0 to 9.
pub open spec fn is_digit(c: char) -> bool {
    '0' <= c <= '9'
}

/// One digit or more, and nothing else.
pub open spec fn all_digits(s: Seq<char>) -> bool {
    s.len() > 0 && forall|i: int| 0 <= i < s.len() ==> is_digit(#[trigger] s[i])
}

/// The number that a row of digits stands for.
pub open spec fn digits_value(s: Seq<char>) -> int
    decreases s.len(),
{
    if s.len() == 0 {
        0
    } else {
        digits_value(s.drop_last()) * 10 + (s.last() as int - '0' as int)
    }
}

/// The number that a text stands for: digits, with a plus in front or not.
pub open spec fn unsigned_value(s: Seq<char>) -> Option<int> {
    if s.len() > 0 && s[0] == '+' && all_digits(s.skip(1)) {
        Some(digits_value(s.skip(1)))
    } else if all_digits(s) {
        Some(digits_value(s))
    } else {
        None
    }
}

/// The number that a text stands for: digits, with a plus or a minus in front or not.
pub open spec fn signed_value(s: Seq<char>) -> Option<int> {
    if s.len() > 0 && s[0] == '-' && all_digits(s.skip(1)) {
        Some(-digits_value(s.skip(1)))
    } else {
        unsigned_value(s)
    }
}

/// The number, where it lies between `low` and `high`.
pub open spec fn in_range(value: Option<int>, low: int, high: int) -> Option<int> {
    match value {
        Some(n) => if low <= n <= high {
            Some(n)
        } else {
            None
        },
        None => None,
    }
}

/// The digit for 0 to 9.
pub open spec fn digit(n: int) -> char {
    ('0' as int + n) as char
}

/// A number in decimal, without leading zeros.
pub open spec fn decimal(n: nat) -> Seq<char>
    decreases n,
{
    if n < 10 {
        seq![digit(n as int)]
    } else {
        decimal(n / 10).push(digit((n % 10) as int))
    }
}

/// A number in decimal, with a minus in front where it is negative.
pub open spec fn signed_decimal(n: int) -> Seq<char> {
    if n < 0 {
        seq!['-'] + decimal((-n) as nat)
    } else {
        decimal(n as nat)
    }
}

/// A row of digits stands for no negative number.
proof fn lemma_digits_value_nonnegative(s: Seq<char>)
    requires
        forall|i: int| 0 <= i < s.len() ==> is_digit(#[trigger] s[i]),
    ensures
        digits_value(s) >= 0,
    decreases s.len(),
{
    if s.len() > 0 {
        let rest = s.drop_last();
        assert forall|i: int| 0 <= i < rest.len() implies is_digit(#[trigger] rest[i]) by {
            assert(is_digit(s[i]));
        }
        lemma_digits_value_nonnegative(rest);
        assert(is_digit(s[s.len() - 1]));
    }
}

/// Reads a row of digits; `None` where there is anything else in it or nothing at all, or where the
/// number is larger than a `u64`.
fn read_digits(s: &str) -> (number: Option<u64>)
    ensures
        match number {
            Some(n) => all_digits(s@) && n == digits_value(s@),
            None => !all_digits(s@) || digits_value(s@) > u64::MAX,
        },
{
    let mut chars = s.chars();
    let mut number: u128 = 0;
    let mut too_large: bool = false;
    let mut any: bool = false;
    let ghost mut i: int = 0;
    loop
        invariant
            0 <= i <= s@.len(),
            any == (i > 0),
            chars.remaining() == s@.skip(i),
            chars.obeys_prophetic_iter_laws(),
            forall|j: int| 0 <= j < i ==> is_digit(#[trigger] s@[j]),
            number <= u64::MAX,
            !too_large ==> number == digits_value(s@.take(i)),
            too_large ==> digits_value(s@.take(i)) > u64::MAX,
        decreases s@.len() - i,
    {
        match chars.next() {
            Some(c) => {
                assert(s@[i] == c);
                if c < '0' || c > '9' {
                    return None;
                }
                proof {
                    assert(s@.take(i + 1).drop_last() =~= s@.take(i));
                    assert(s@.skip(i).drop_first() =~= s@.skip(i + 1));
                    i = i + 1;
                }
                any = true;
                if !too_large {
                    let next: u128 = number * 10 + (c as u128 - '0' as u128);
                    if next > u64::MAX as u128 {
                        too_large = true;
                    } else {
                        number = next;
                    }
                }
            },
            None => {
                assert(s@.take(i) =~= s@);
                if !any || too_large {
                    return None;
                }
                return Some(number as u64);
            },
        }
    }
}

/// The text behind its first character.
fn behind_first(s: &str) -> (rest: &str)
    requires
        s@.len() > 0,
    ensures
        rest@ == s@.skip(1),
{
    s.substring_char(1, s.unicode_len())
}

/// Whether the text starts with `c`.
fn starts_with_char(s: &str, c: char) -> (starts: bool)
    ensures
        starts == (s@.len() > 0 && s@[0] == c),
{
    match s.chars().next() {
        Some(first) => first == c,
        None => false,
    }
}

/// Reads a `u64`: digits, with a plus in front or not.
pub fn read_u64(s: &str) -> (number: Option<u64>)
    ensures
        match number {
            Some(n) => in_range(unsigned_value(s@), 0, u64::MAX as int) == Some(n as int),
            None => in_range(unsigned_value(s@), 0, u64::MAX as int) is None,
        },
{
    proof {
        lemma_no_sign_is_digit(s@);
    }
    if starts_with_char(s, '+') {
        read_digits(behind_first(s))
    } else {
        read_digits(s)
    }
}

/// Reads a `u32`: digits, with a plus in front or not.
pub fn read_u32(s: &str) -> (number: Option<u32>)
    ensures
        match number {
            Some(n) => in_range(unsigned_value(s@), 0, u32::MAX as int) == Some(n as int),
            None => in_range(unsigned_value(s@), 0, u32::MAX as int) is None,
        },
{
    match read_u64(s) {
        Some(n) => if n <= u32::MAX as u64 {
            Some(n as u32)
        } else {
            None
        },
        None => None,
    }
}

/// Reads an `i64`: digits, with a plus or a minus in front or not.
pub fn read_i64(s: &str) -> (number: Option<i64>)
    ensures
        match number {
            Some(n) => in_range(signed_value(s@), i64::MIN as int, i64::MAX as int) == Some(
                n as int,
            ),
            None => in_range(signed_value(s@), i64::MIN as int, i64::MAX as int) is None,
        },
{
    proof {
        lemma_no_sign_is_digit(s@);
    }
    if starts_with_char(s, '-') {
        match read_digits(behind_first(s)) {
            Some(n) => if n <= 0x8000_0000_0000_0000 {
                Some((-(n as i128)) as i64)
            } else {
                None
            },
            None => None,
        }
    } else {
        match read_u64(s) {
            Some(n) => if n <= i64::MAX as u64 {
                Some(n as i64)
            } else {
                None
            },
            None => None,
        }
    }
}

/// A row of digits starts with no sign, and stands for no negative number, with a sign before it or
/// not.
proof fn lemma_no_sign_is_digit(s: Seq<char>)
    ensures
        s.len() > 0 && (s[0] == '+' || s[0] == '-') ==> !all_digits(s),
        all_digits(s) ==> digits_value(s) >= 0,
        s.len() > 0 && all_digits(s.skip(1)) ==> digits_value(s.skip(1)) >= 0,
{
    if s.len() > 0 && (s[0] == '+' || s[0] == '-') {
        assert(!is_digit(s[0]));
    }
    if all_digits(s) {
        lemma_digits_value_nonnegative(s);
    }
    if s.len() > 0 && all_digits(s.skip(1)) {
        lemma_digits_value_nonnegative(s.skip(1));
    }
}

/// The digit for 0 to 9, as a text.
fn digit_text(n: u64) -> (text: &'static str)
    requires
        n < 10,
    ensures
        text@ == seq![digit(n as int)],
{
    proof {
        reveal_strlit("0");
        reveal_strlit("1");
        reveal_strlit("2");
        reveal_strlit("3");
        reveal_strlit("4");
        reveal_strlit("5");
        reveal_strlit("6");
        reveal_strlit("7");
        reveal_strlit("8");
        reveal_strlit("9");
    }
    let text: &'static str = match n {
        0 => "0",
        1 => "1",
        2 => "2",
        3 => "3",
        4 => "4",
        5 => "5",
        6 => "6",
        7 => "7",
        8 => "8",
        _ => "9",
    };
    assert(text@ =~= seq![digit(n as int)]);
    text
}

/// Writes a number in decimal behind a text.
pub fn write_decimal(text: &mut String, n: u64)
    ensures
        final(text)@ == old(text)@ + decimal(n as nat),
    decreases n,
{
    if n < 10 {
        text.append(digit_text(n));
    } else {
        write_decimal(text, n / 10);
        text.append(digit_text(n % 10));
        assert(text@ =~= old(text)@ + decimal(n as nat));
    }
}

/// Writes a number in decimal behind a text, with a minus where it is negative.
pub fn write_signed(text: &mut String, n: i64)
    ensures
        final(text)@ == old(text)@ + signed_decimal(n as int),
{
    if n < 0 {
        proof {
            reveal_strlit("-");
            assert("-"@ =~= seq!['-']);
        }
        text.append("-");
        write_decimal(text, (-(n as i128)) as u64);
        assert(text@ =~= old(text)@ + signed_decimal(n as int));
    } else {
        write_decimal(text, n as u64);
    }
}

/// What is written in decimal reads as the same number.
pub proof fn law_decimal_reads_back(n: nat)
    ensures
        all_digits(decimal(n)),
        digits_value(decimal(n)) == n,
    decreases n,
{
    if n < 10 {
        let s = seq![digit(n as int)];
        assert(digits_value(s.drop_last()) == 0);
        assert(is_digit(s[0]));
    } else {
        law_decimal_reads_back(n / 10);
        let s = decimal(n / 10);
        let all = s.push(digit((n % 10) as int));
        assert(all.drop_last() =~= s);
        assert forall|i: int| 0 <= i < all.len() implies is_digit(#[trigger] all[i]) by {
            if i < s.len() {
                assert(is_digit(s[i]));
            }
        }
    }
}

/// What is written with its sign reads as the same number.
pub proof fn law_signed_decimal_reads_back(n: int)
    ensures
        signed_value(signed_decimal(n)) == Some(n),
{
    let s = signed_decimal(n);
    if n < 0 {
        law_decimal_reads_back((-n) as nat);
        assert(s.skip(1) =~= decimal((-n) as nat));
    } else {
        law_decimal_reads_back(n as nat);
        lemma_no_sign_is_digit(s);
    }
}

/// A digit more makes ten times the number plus the digit; no digits make 0.
pub proof fn law_digit_by_digit(s: Seq<char>, c: char)
    requires
        '0' <= c <= '9',
    ensures
        digits_value(seq![]) == 0,
        digits_value(s.push(c)) == 10 * digits_value(s) + (c as int - 48),
{
    assert(s.push(c).drop_last() =~= s);
}

/// Zeros in front do not change a number.
pub proof fn law_leading_zeros_change_nothing(s: Seq<char>)
    ensures
        digits_value(seq!['0'] + s) == digits_value(s),
    decreases s.len(),
{
    let zero = seq!['0'];
    if s.len() == 0 {
        assert(zero + s =~= zero);
        assert(digits_value(zero.drop_last()) == 0);
    } else {
        law_leading_zeros_change_nothing(s.drop_last());
        assert((zero + s).drop_last() =~= zero + s.drop_last());
    }
}

/// What reads as a number: one digit or more, with a plus in front or not, and for signed numbers
/// with a minus; the sign decides the sign of the number.
pub proof fn law_what_reads_as_a_number(s: Seq<char>)
    requires
        s.len() > 0,
        forall|i: int| 0 <= i < s.len() ==> '0' <= #[trigger] s[i] <= '9',
    ensures
        unsigned_value(s) == Some(digits_value(s)),
        unsigned_value(seq!['+'] + s) == Some(digits_value(s)),
        unsigned_value(seq!['-'] + s) is None,
        signed_value(s) == Some(digits_value(s)),
        signed_value(seq!['+'] + s) == Some(digits_value(s)),
        signed_value(seq!['-'] + s) == Some(-digits_value(s)),
        digits_value(s) >= 0,
{
    let plus = seq!['+'] + s;
    let minus = seq!['-'] + s;
    assert(plus.skip(1) =~= s);
    assert(minus.skip(1) =~= s);
    assert(plus[0] == '+' && minus[0] == '-');
    assert(!is_digit(plus[0]) && !is_digit(minus[0]));
    assert(is_digit(s[0]));
    lemma_digits_value_nonnegative(s);
}

/// What does not read as a number: nothing at all, a sign alone, or a text with anything but a digit
/// behind its first character.
pub proof fn law_what_reads_as_no_number(s: Seq<char>, i: int)
    ensures
        unsigned_value(seq![]) is None,
        signed_value(seq![]) is None,
        signed_value(seq!['+']) is None,
        signed_value(seq!['-']) is None,
        0 < i < s.len() && !('0' <= s[i] <= '9') ==> unsigned_value(s) is None && signed_value(
            s,
        ) is None,
        s.len() > 0 && !('0' <= s[0] <= '9') && s[0] != '+' ==> unsigned_value(s) is None,
        s.len() > 0 && !('0' <= s[0] <= '9') && s[0] != '+' && s[0] != '-' ==> signed_value(
            s,
        ) is None,
{
    assert(seq!['+'].skip(1).len() == 0);
    assert(seq!['-'].skip(1).len() == 0);
    assert(!is_digit(seq!['+'][0]));
    assert(!is_digit(seq!['-'][0]));
    if 0 < i < s.len() && !is_digit(s[i]) {
        assert(!is_digit(s.skip(1)[i - 1]));
    }
    if s.len() > 0 && !is_digit(s[0]) {
        assert(!all_digits(s));
    }
}

/// A number is written without zeros in front, zero itself as one digit.
pub proof fn law_decimal_has_no_leading_zero(n: nat)
    ensures
        decimal(n).len() > 0,
        n > 0 ==> decimal(n)[0] != '0',
        n == 0 ==> decimal(n) == seq!['0'],
    decreases n,
{
    if n >= 10 {
        law_decimal_has_no_leading_zero(n / 10);
    }
}

} // verus!
