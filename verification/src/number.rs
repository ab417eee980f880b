//! Signed decimal integers as text: an optional sign, then one or more
//! digits.

use vstd::prelude::*;

verus! {

/// Whether `c` is one of the ten decimal digits.
pub open spec fn is_digit(c: char) -> bool {
    0x30 <= c as u32 <= 0x39
}

/// The number that a decimal digit stands for.
pub open spec fn digit_value(c: char) -> int {
    c as u32 - 0x30
}

/// Whether `s` consists of decimal digits only.
pub open spec fn all_digits(s: Seq<char>) -> bool {
    forall|i: int| 0 <= i < s.len() ==> is_digit(#[trigger] s[i])
}

/// The number that a run of decimal digits stands for, most significant
/// digit first.
pub open spec fn digits_value(s: Seq<char>) -> int
    decreases s.len(),
{
    if s.len() == 0 {
        0
    } else {
        digits_value(s.drop_last()) * 10 + digit_value(s.last())
    }
}

/// Whether `s` starts with a sign.
pub open spec fn has_sign(s: Seq<char>) -> bool {
    s.len() > 0 && (s[0] == '-' || s[0] == '+')
}

/// The part of `s` after its sign, if it has one.
pub open spec fn unsigned_part(s: Seq<char>) -> Seq<char> {
    if has_sign(s) {
        s.skip(1)
    } else {
        s
    }
}

/// The number that `s` is read as, before any question of range.
pub open spec fn signed_value(s: Seq<char>) -> int {
    if s.len() > 0 && s[0] == '-' {
        -digits_value(unsigned_part(s))
    } else {
        digits_value(unsigned_part(s))
    }
}

/// The 64-bit integer that `s` spells in decimal, if it spells one: `s` is
/// an optional `+` or `-`, then at least one digit and nothing else, and the
/// number lies in the 64-bit signed range.
pub open spec fn parsed(s: Seq<char>) -> Option<i64> {
    if unsigned_part(s).len() > 0 && all_digits(unsigned_part(s)) && i64::MIN <= signed_value(s)
        <= i64::MAX {
        Some(signed_value(s) as i64)
    } else {
        None
    }
}

/// A longer run of digits never stands for a smaller number than the run
/// it starts with.
pub proof fn lemma_digits_grow(s: Seq<char>, k: int)
    requires
        all_digits(s),
        0 <= k <= s.len(),
    ensures
        0 <= digits_value(s.take(k)) <= digits_value(s),
    decreases s.len() - k,
{
    if k == 0 {
        assert(s.take(0).len() == 0);
        lemma_digits_nonnegative(s);
    } else if k == s.len() {
        assert(s.take(k) =~= s);
        lemma_digits_nonnegative(s);
    } else {
        lemma_digits_grow(s, k + 1);
        let longer = s.take(k + 1);
        assert(longer.drop_last() =~= s.take(k));
        assert(is_digit(s[k]));
        assert(longer.last() == s[k]);
        lemma_digits_nonnegative(s.take(k));
    }
}

/// A run of digits stands for a number that is not negative.
pub proof fn lemma_digits_nonnegative(s: Seq<char>)
    requires
        all_digits(s),
    ensures
        0 <= digits_value(s),
    decreases s.len(),
{
    if s.len() > 0 {
        assert(is_digit(s.last()));
        lemma_digits_nonnegative(s.drop_last());
    }
}

/// Tells whether `c` is a decimal digit.
pub fn is_decimal_digit(c: char) -> (r: bool)
    ensures
        r == is_digit(c),
{
    let code = c as u32;
    0x30 <= code && code <= 0x39
}

/// Reads a run of characters as a signed decimal 64-bit integer.
///
/// Returns `None` when the run is empty, holds anything but an optional
/// sign and digits, holds no digit, or spells a number outside the 64-bit
/// signed range.
pub fn parse_integer(chars: &[char]) -> (r: Option<i64>)
    ensures
        r == parsed(chars@),
{
    let n = chars.len();
    if n == 0 {
        return None;
    }
    let negative = chars[0] == '-';
    let start: usize = if negative || chars[0] == '+' {
        1
    } else {
        0
    };
    if start == n {
        return None;
    }
    let ghost digits = unsigned_part(chars@);
    assert(digits =~= chars@.skip(start as int));
    // The largest magnitude that the sign allows.
    let limit: u64 = if negative {
        0x8000_0000_0000_0000
    } else {
        0x7FFF_FFFF_FFFF_FFFF
    };
    let mut magnitude: u64 = 0;
    let mut i: usize = start;
    while i < n
        invariant
            start <= i <= n,
            n == chars@.len(),
            digits == chars@.skip(start as int),
            digits == unsigned_part(chars@),
            negative == (chars@[0] == '-'),
            all_digits(digits.take(i - start)),
            magnitude == digits_value(digits.take(i - start)),
            magnitude <= limit,
            limit == (if negative {
                0x8000_0000_0000_0000u64
            } else {
                0x7FFF_FFFF_FFFF_FFFFu64
            }),
        decreases n - i,
    {
        let c = chars[i];
        assert(c == digits[i - start]);
        if !is_decimal_digit(c) {
            assert(!is_digit(digits[i - start]));
            return None;
        }
        let d: u64 = (c as u32 - 0x30) as u64;
        proof {
            let longer = digits.take(i - start + 1);
            assert(longer.drop_last() =~= digits.take(i - start));
            assert(longer.last() == c);
            assert(all_digits(longer)) by {
                assert forall|j: int| 0 <= j < longer.len() implies is_digit(
                    #[trigger] longer[j],
                ) by {
                    if j < i - start {
                        assert(longer[j] == digits.take(i - start)[j]);
                    }
                }
            }
        }
        if magnitude > (limit - d) / 10 {
            proof {
                let longer = digits.take(i - start + 1);
                assert(digits_value(longer) > limit);
                if all_digits(digits) {
                    lemma_digits_grow(digits, i - start + 1);
                }
            }
            return None;
        }
        magnitude = magnitude * 10 + d;
        i += 1;
    }
    assert(digits.take(n - start) =~= digits);
    if negative {
        if magnitude == 0x8000_0000_0000_0000 {
            Some(i64::MIN)
        } else {
            Some(-(magnitude as i64))
        }
    } else {
        Some(magnitude as i64)
    }
}

/// The character of a decimal digit.
pub open spec fn digit_char(d: int) -> char
    recommends
        0 <= d <= 9,
{
    (d + 0x30) as char
}

/// The decimal digits of a number that is not negative, most significant
/// first, without leading zeros.
pub open spec fn digits(n: nat) -> Seq<char>
    decreases n,
{
    if n < 10 {
        seq![digit_char(n as int)]
    } else {
        digits(n / 10).push(digit_char(n as int % 10))
    }
}

/// The decimal representation of an integer: its digits, after a `-` if it
/// is negative.
pub open spec fn decimal(v: int) -> Seq<char> {
    if v < 0 {
        seq!['-'] + digits((-v) as nat)
    } else {
        digits(v as nat)
    }
}

/// The digits that `low` holds, least significant first, as characters in
/// reading order.
pub open spec fn reading_order(low: Seq<u8>) -> Seq<char> {
    Seq::new(low.len(), |i: int| digit_char(low[low.len() - 1 - i] as int))
}

/// Returns the one-character string of a decimal digit.
fn digit_str(d: u8) -> (s: &'static str)
    requires
        d <= 9,
    ensures
        s@ == seq![digit_char(d as int)],
{
    proof {
        reveal_strlit("0");
        reveal_strlit("1");
        reveal_strlit("2");
        reveal_strlit("3");
        reveal_strlit("4");
        reveal_strlit("5");
        reveal_strlit("6");
        reveal_strlit("7");
        reveal_strlit("8");
        reveal_strlit("9");
    }
    let s = match d {
        0 => "0",
        1 => "1",
        2 => "2",
        3 => "3",
        4 => "4",
        5 => "5",
        6 => "6",
        7 => "7",
        8 => "8",
        _ => "9",
    };
    assert(s@ =~= seq![digit_char(d as int)]);
    s
}

/// Writes an integer in decimal.
pub fn format_integer(v: i64) -> (text: String)
    ensures
        text@ == decimal(v as int),
{
    let negative = v < 0;
    let magnitude: u64 = if !negative {
        v as u64
    } else if v == i64::MIN {
        0x8000_0000_0000_0000
    } else {
        (-v) as u64
    };
    let mut low: Vec<u8> = Vec::new();
    low.push((magnitude % 10) as u8);
    let mut rest: u64 = magnitude / 10;
    assert(reading_order(low@) =~= seq![digit_char(magnitude as int % 10)]);
    while rest > 0
        invariant
            low@.len() > 0,
            forall|i: int| 0 <= i < low@.len() ==> #[trigger] low@[i] <= 9,
            digits(magnitude as nat) == if rest > 0 {
                digits(rest as nat) + reading_order(low@)
            } else {
                reading_order(low@)
            },
        decreases rest,
    {
        let d: u8 = (rest % 10) as u8;
        let ghost before = low@;
        low.push(d);
        proof {
            assert(reading_order(low@) =~= seq![digit_char(d as int)] + reading_order(before));
            if rest >= 10 {
                assert(digits(rest as nat) =~= digits((rest / 10) as nat) + seq![
                    digit_char(d as int),
                ]);
                assert(digits(magnitude as nat) =~= digits((rest / 10) as nat) + reading_order(
                    low@,
                ));
            }
        }
        rest = rest / 10;
    }
    let mut text = String::new();
    if negative {
        proof {
            reveal_strlit("-");
        }
        text.append("-");
    }
    let ghost sign = text@;
    assert(sign =~= if negative {
        seq!['-']
    } else {
        Seq::<char>::empty()
    });
    let mut k: usize = low.len();
    while k > 0
        invariant
            k <= low@.len(),
            forall|i: int| 0 <= i < low@.len() ==> #[trigger] low@[i] <= 9,
            text@ == sign + reading_order(low@).take(low@.len() - k),
        decreases k,
    {
        k -= 1;
        let ghost before = text@;
        text.append(digit_str(low[k]));
        assert(text@ =~= sign + reading_order(low@).take(low@.len() - k));
    }
    assert(reading_order(low@).take(low@.len() as int) =~= reading_order(low@));
    text
}

} // verus!
