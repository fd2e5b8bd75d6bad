//! Small helpers on text, stated over sequences of characters.

use vstd::prelude::*;

verus! {

/// Whether two string slices hold the same characters.
pub fn same_text(a: &str, b: &str) -> (r: bool)
    ensures
        r == (a@ == b@),
{
    let x = String::from_str(a);
    let y = String::from_str(b);
    x == y
}

/// The characters of `s`, one element each.
pub fn chars_of(s: &str) -> (v: Vec<char>)
    ensures
        v@ == s@,
{
    let mut v: Vec<char> = Vec::new();
    for c in it: s.chars()
        invariant
            it.seq() == s@,
            v@ == it.seq().take(it.index() as int),
    {
        v.push(c);
    }
    assert(v@ =~= s@);
    v
}

/// The value of a decimal digit.
pub open spec fn digit_of(c: char) -> Option<int> {
    if '0' <= c && c <= '9' {
        Some(c as int - '0' as int)
    } else {
        None
    }
}

/// The number that a non-empty run of decimal digits writes.
pub open spec fn decimal_value(digits: Seq<char>) -> Option<int>
    decreases digits.len(),
{
    if digits.len() == 0 {
        None
    } else {
        match digit_of(digits.last()) {
            None => None,
            Some(d) => if digits.len() == 1 {
                Some(d)
            } else {
                match decimal_value(digits.drop_last()) {
                    Some(v) => Some(10 * v + d),
                    None => None,
                }
            },
        }
    }
}

/// The 64-bit integer that a text writes in decimal: an optional sign, then
/// one digit or more, and a value that fits.
pub open spec fn parsed_i64(text: Seq<char>) -> Option<i64> {
    let negative = text.len() > 0 && text[0] == '-';
    let signed = text.len() > 0 && (text[0] == '-' || text[0] == '+');
    let digits = if signed {
        text.skip(1)
    } else {
        text
    };
    match decimal_value(digits) {
        Some(v) => {
            let x = if negative {
                -v
            } else {
                v
            };
            if i64::MIN <= x <= i64::MAX {
                Some(x as i64)
            } else {
                None
            }
        },
        None => None,
    }
}

proof fn lemma_decimal_needs_digits(digits: Seq<char>, k: int)
    requires
        0 <= k < digits.len(),
        digit_of(digits[k]) is None,
    ensures
        decimal_value(digits) is None,
    decreases digits.len(),
{
    if k < digits.len() - 1 {
        lemma_decimal_needs_digits(digits.drop_last(), k);
    }
}

proof fn lemma_decimal_grows(digits: Seq<char>, j: int)
    requires
        1 <= j <= digits.len(),
        decimal_value(digits) is Some,
    ensures
        decimal_value(digits.take(j)) matches Some(p) && 0 <= p <= decimal_value(digits)->0,
    decreases digits.len(),
{
    if j == digits.len() {
        assert(digits.take(j) =~= digits);
        if digits.len() > 1 {
            lemma_decimal_grows(digits.drop_last(), j - 1);
        }
    } else {
        lemma_decimal_grows(digits.drop_last(), j);
        assert(digits.drop_last().take(j) =~= digits.take(j));
    }
}

/// The value of the decimal digit `c`.
fn digit(c: char) -> (r: Option<u8>)
    ensures
        match r {
            Some(d) => digit_of(c) == Some(d as int),
            None => digit_of(c) is None,
        },
{
    match c {
        '0' => Some(0),
        '1' => Some(1),
        '2' => Some(2),
        '3' => Some(3),
        '4' => Some(4),
        '5' => Some(5),
        '6' => Some(6),
        '7' => Some(7),
        '8' => Some(8),
        '9' => Some(9),
        _ => None,
    }
}

/// Reads a 64-bit integer written in decimal.
///
/// The text is an optional `+` or `-` and then one digit or more. Anything
/// else, and a number that does not fit, gives `None`.
pub fn parse_i64(text: &str) -> (r: Option<i64>)
    ensures
        r == parsed_i64(text@),
{
    let chars = chars_of(text);
    let n = chars.len();
    if n == 0 {
        return None;
    }
    let negative = chars[0] == '-';
    let signed = negative || chars[0] == '+';
    let start: usize = if signed {
        1
    } else {
        0
    };
    let ghost digits = if signed {
        text@.skip(1)
    } else {
        text@
    };
    if start == n {
        return None;
    }
    let mut acc: u64 = 0;
    let mut i: usize = start;
    while i < n
        invariant
            chars@ == text@,
            n == chars@.len(),
            start <= i <= n,
            start < n,
            digits.len() == n - start,
            forall|k: int| 0 <= k < digits.len() ==> digits[k] == chars@[k + start],
            i == start ==> acc == 0,
            i > start ==> decimal_value(digits.take(i - start)) == Some(acc as int),
            acc <= 0x8000_0000_0000_0000,
            signed == (text@.len() > 0 && (text@[0] == '-' || text@[0] == '+')),
            negative == (text@.len() > 0 && text@[0] == '-'),
            digits == if signed {
                text@.skip(1)
            } else {
                text@
            },
        decreases n - i,
    {
        let ghost j = i - start;
        let d = match digit(chars[i]) {
            Some(d) => d,
            None => {
                proof {
                    lemma_decimal_needs_digits(digits, j);
                }
                return None;
            },
        };
        assert(digits.take(j + 1).drop_last() =~= digits.take(j));
        assert(digits.take(j + 1).last() == digits[j]);
        let ghost value = 10 * acc + d;
        assert(decimal_value(digits.take(j + 1)) == Some(value));
        if acc > 0x0ccc_cccc_cccc_cccc || acc * 10 + (d as u64) > 0x8000_0000_0000_0000 {
            proof {
                if decimal_value(digits) is Some {
                    lemma_decimal_grows(digits, j + 1);
                }
            }
            return None;
        }
        acc = acc * 10 + (d as u64);
        i += 1;
    }
    assert(digits.take(n - start) =~= digits);
    if negative {
        if acc == 0x8000_0000_0000_0000 {
            Some(i64::MIN)
        } else {
            Some(-(acc as i64))
        }
    } else {
        if acc > 0x7fff_ffff_ffff_ffff {
            None
        } else {
            Some(acc as i64)
        }
    }
}

} // verus!
