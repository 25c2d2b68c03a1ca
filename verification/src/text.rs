//! The text form of integers and of comma-separated fields, as the text form
//! of coordinates uses them.

use vstd::prelude::*;
use vstd::string::StringExecFns;

verus! {

/// The character of the decimal digit `digit`.
pub open spec fn digit_char(digit: int) -> char {
    (digit + 48) as char
}

/// Whether `c` is a decimal digit.
pub open spec fn is_digit(c: char) -> bool {
    48 <= c as int <= 57
}

/// The decimal digits of `n`, without leading zeros.
pub open spec fn decimal(n: nat) -> Seq<char>
    decreases n,
{
    if n < 10 {
        seq![digit_char(n as int)]
    } else {
        decimal(n / 10).push(digit_char((n % 10) as int))
    }
}

/// The text of an integer: its decimal digits, after a minus sign if it is
/// negative.
pub open spec fn format_int(n: int) -> Seq<char> {
    if n < 0 {
        seq!['-'] + decimal((-n) as nat)
    } else {
        decimal(n as nat)
    }
}

/// Whether every character of `s` is a decimal digit.
pub open spec fn all_digits(s: Seq<char>) -> bool {
    forall|i: int| 0 <= i < s.len() ==> is_digit(#[trigger] s[i])
}

/// The number that the decimal digits `s` stand for.
pub open spec fn digits_value(s: Seq<char>) -> nat
    decreases s.len(),
{
    if s.len() == 0 {
        0
    } else {
        (digits_value(s.drop_last()) * 10 + (s.last() as int - 48)) as nat
    }
}

/// The integer that `s` is the text of: one or more decimal digits, after an
/// optional sign. Any other text stands for no integer.
pub open spec fn parse_int(s: Seq<char>) -> Option<int> {
    if s.len() > 0 && (s[0] == '-' || s[0] == '+') {
        let digits = s.skip(1);
        if digits.len() > 0 && all_digits(digits) {
            if s[0] == '-' {
                Some(-(digits_value(digits) as int))
            } else {
                Some(digits_value(digits) as int)
            }
        } else {
            None
        }
    } else if s.len() > 0 && all_digits(s) {
        Some(digits_value(s) as int)
    } else {
        None
    }
}

/// The `i32` that `s` is the text of, if it is the text of an integer in the
/// range of `i32`.
pub open spec fn parse_i32(s: Seq<char>) -> Option<i32> {
    match parse_int(s) {
        Some(value) => if i32::MIN <= value <= i32::MAX {
            Some(value as i32)
        } else {
            None
        },
        None => None,
    }
}

/// The position of the first comma of `s` at or after `from`, if there is one.
pub open spec fn comma_from(s: Seq<char>, from: int) -> Option<int> {
    if exists|i: int| is_comma_from(s, from, i) {
        Some(choose|i: int| is_comma_from(s, from, i))
    } else {
        None
    }
}

/// Whether `i` is the position of the first comma of `s` at or after `from`.
pub open spec fn is_comma_from(s: Seq<char>, from: int, i: int) -> bool {
    &&& from <= i < s.len()
    &&& s[i] == ','
    &&& forall|k: int| from <= k < i ==> s[k] != ','
}

/// The digits of a number are digits, there is at least one of them, and
/// they stand for that number.
pub proof fn lemma_decimal(n: nat)
    ensures
        decimal(n).len() > 0,
        all_digits(decimal(n)),
        digits_value(decimal(n)) == n,
    decreases n,
{
    if n < 10 {
        let s = decimal(n);
        assert(s.drop_last() =~= Seq::<char>::empty());
        assert(digits_value(s.drop_last()) == 0);
        assert(s.last() == digit_char(n as int));
        assert(digit_char(n as int) as int == n + 48);
    } else {
        lemma_decimal(n / 10);
        let s = decimal(n);
        assert(s.drop_last() =~= decimal(n / 10));
        assert(s.last() == digit_char((n % 10) as int));
        assert(digit_char((n % 10) as int) as int == n % 10 + 48);
    }
}

/// The text of an integer stands for that integer.
pub proof fn lemma_parse_format_int(n: int)
    ensures
        parse_int(format_int(n)) == Some(n),
        forall|i: int| 0 <= i < format_int(n).len() ==> format_int(n)[i] != ',',
{
    if n < 0 {
        lemma_decimal((-n) as nat);
        let s = format_int(n);
        assert(s.skip(1) =~= decimal((-n) as nat));
        assert(s[0] == '-');
        assert forall|i: int| 0 <= i < s.len() implies s[i] != ',' by {
            if i > 0 {
                assert(is_digit(decimal((-n) as nat)[i - 1]));
            }
        }
    } else {
        lemma_decimal(n as nat);
        let s = format_int(n);
        assert(is_digit(s[0]));
        assert forall|i: int| 0 <= i < s.len() implies s[i] != ',' by {
            assert(is_digit(s[i]));
        }
    }
}

/// The characters of a string.
pub fn chars_of(s: &str) -> (chars: Vec<char>)
    ensures
        chars@ == s@,
{
    let mut chars: Vec<char> = Vec::new();
    for c in it: s.chars()
        invariant
            chars@ == it.seq().take(it.index() as int),
    {
        chars.push(c);
    }
    chars
}

/// The position of the first comma at or after `from`, if there is one.
pub fn find_comma(chars: &Vec<char>, from: usize) -> (found: Option<usize>)
    requires
        from <= chars.len(),
    ensures
        match found {
            Some(i) => comma_from(chars@, from as int) == Some(i as int) && from <= i < chars.len(),
            None => comma_from(chars@, from as int) is None,
        },
{
    let mut i: usize = from;
    while i < chars.len()
        invariant
            from <= i <= chars.len(),
            forall|k: int| from <= k < i ==> chars@[k] != ',',
        decreases chars.len() - i,
    {
        if chars[i] == ',' {
            proof {
                assert(is_comma_from(chars@, from as int, i as int));
                let chosen = choose|j: int| is_comma_from(chars@, from as int, j);
                assert(chosen == i);
            }
            return Some(i);
        }
        i += 1;
    }
    None
}

/// A longer sequence of digits stands for a number at least as great.
proof fn lemma_digits_value_grows(s: Seq<char>, upto: int)
    requires
        all_digits(s),
        0 <= upto <= s.len(),
    ensures
        digits_value(s.take(upto)) <= digits_value(s),
    decreases s.len() - upto,
{
    if upto < s.len() {
        lemma_digits_value_grows(s, upto + 1);
        let longer = s.take(upto + 1);
        assert(longer.drop_last() =~= s.take(upto));
        assert(is_digit(s[upto]));
        assert(longer.last() == s[upto]);
    } else {
        assert(s.take(upto) =~= s);
    }
}

/// The `i32` that the characters from `from` up to `to` are the text of, if
/// there is one.
pub fn parse_number(chars: &Vec<char>, from: usize, to: usize) -> (number: Option<i32>)
    requires
        from <= to <= chars.len(),
    ensures
        number == parse_i32(chars@.subrange(from as int, to as int)),
{
    let ghost text = chars@.subrange(from as int, to as int);
    if from == to {
        return None;
    }
    let negative = chars[from] == '-';
    let signed = negative || chars[from] == '+';
    let start = if signed {
        from + 1
    } else {
        from
    };
    let ghost digits = if signed {
        text.skip(1)
    } else {
        text
    };
    assert(text[0] == chars@[from as int]);
    assert(digits =~= chars@.subrange(start as int, to as int));
    if start == to {
        return None;
    }
    let mut value: i64 = 0;
    let mut i: usize = start;
    while i < to
        invariant
            from <= start <= i <= to <= chars.len(),
            start < to,
            text == chars@.subrange(from as int, to as int),
            digits == chars@.subrange(start as int, to as int),
            digits == if signed {
                text.skip(1)
            } else {
                text
            },
            signed == (text[0] == '-' || text[0] == '+'),
            negative == (text[0] == '-'),
            all_digits(digits.take(i - start)),
            value == digits_value(digits.take(i - start)),
            0 <= value <= 0x8000_0000,
        decreases to - i,
    {
        let c = chars[i];
        assert(digits[i - start] == c);
        if !('0' <= c && c <= '9') {
            assert(!is_digit(digits[i - start]));
            return None;
        }
        let ghost shorter = digits.take(i - start);
        let ghost longer = digits.take(i - start + 1);
        proof {
            assert(longer.drop_last() =~= shorter);
            assert(longer.last() == c);
            assert(all_digits(longer)) by {
                assert forall|k: int| 0 <= k < longer.len() implies is_digit(
                    #[trigger] longer[k],
                ) by {
                    if k < shorter.len() {
                        assert(longer[k] == shorter[k]);
                    }
                }
            }
        }
        let digit: i64 = (c as u32 - '0' as u32) as i64;
        value = value * 10 + digit;
        if value > 0x8000_0000 {
            proof {
                if all_digits(digits) {
                    lemma_digits_value_grows(digits, i - start + 1);
                }
            }
            return None;
        }
        i += 1;
    }
    assert(digits.take(to - start) =~= digits);
    if negative {
        Some((-value) as i32)
    } else if value > i32::MAX as i64 {
        None
    } else {
        Some(value as i32)
    }
}

/// The text of one decimal digit.
fn digit_str(digit: u8) -> (text: &'static str)
    requires
        digit < 10,
    ensures
        text@ == seq![digit_char(digit as int)],
{
    proof {
        reveal_strlit("0");
        reveal_strlit("1");
        reveal_strlit("2");
        reveal_strlit("3");
        reveal_strlit("4");
        reveal_strlit("5");
        reveal_strlit("6");
        reveal_strlit("7");
        reveal_strlit("8");
        reveal_strlit("9");
    }
    let text = match digit {
        0 => "0",
        1 => "1",
        2 => "2",
        3 => "3",
        4 => "4",
        5 => "5",
        6 => "6",
        7 => "7",
        8 => "8",
        _ => "9",
    };
    assert(text@ =~= seq![digit_char(digit as int)]);
    text
}

/// Appends the decimal digits of `n`.
fn append_decimal(out: &mut String, n: u64)
    ensures
        final(out)@ == old(out)@ + decimal(n as nat),
    decreases n,
{
    if n >= 10 {
        append_decimal(out, n / 10);
    }
    out.append(digit_str((n % 10) as u8));
    assert(out@ =~= old(out)@ + decimal(n as nat));
}

/// Appends the text of `n`.
pub fn append_int(out: &mut String, n: i32)
    ensures
        final(out)@ == old(out)@ + format_int(n as int),
{
    if n < 0 {
        proof {
            reveal_strlit("-");
        }
        out.append("-");
        append_decimal(out, (-(n as i64)) as u64);
        assert(out@ =~= old(out)@ + format_int(n as int));
    } else {
        append_decimal(out, n as u64);
    }
}

} // verus!
