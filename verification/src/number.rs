//! Whole numbers written in decimal.

use vstd::prelude::*;

use crate::text;

verus! {

/// The character that stands for a number below ten.
pub open spec fn digit(d: nat) -> char {
    (('0' as u32) + d) as char
}

/// The character is one of the ten digits.
pub open spec fn is_digit(c: char) -> bool {
    '0' <= c <= '9'
}

/// The number that a digit stands for.
pub open spec fn digit_value(c: char) -> nat {
    ((c as u32) - ('0' as u32)) as nat
}

/// The number in decimal, without leading zeros.
pub open spec fn decimal(n: nat) -> Seq<char>
    decreases n,
{
    if n < 10 {
        seq![digit(n)]
    } else {
        decimal(n / 10).push(digit(n % 10))
    }
}

/// Every character is a digit.
pub open spec fn all_digits(s: Seq<char>) -> bool {
    forall|i: int| 0 <= i < s.len() ==> is_digit(#[trigger] s[i])
}

/// The number that a row of digits stands for.
pub open spec fn value_of(s: Seq<char>) -> nat
    decreases s.len(),
{
    if s.len() == 0 {
        0
    } else {
        value_of(s.drop_last()) * 10 + digit_value(s.last())
    }
}

/// The digits of a number: what follows a plus sign, where there is one.
pub open spec fn digits_part(s: Seq<char>) -> Seq<char> {
    if s.len() > 0 && s[0] == '+' {
        s.skip(1)
    } else {
        s
    }
}

/// The number that a text stands for: one or more digits, which a plus sign may precede, with a
/// value that fits.
pub open spec fn number(s: Seq<char>) -> Option<u64> {
    let d = digits_part(s);
    if d.len() > 0 && all_digits(d) && value_of(d) <= u64::MAX {
        Some(value_of(d) as u64)
    } else {
        None
    }
}

/// At least two digits.
pub open spec fn two_digits(n: nat) -> Seq<char> {
    if n < 10 {
        seq!['0', digit(n)]
    } else {
        decimal(n)
    }
}

/// The text with spaces after it, up to `width` characters.
pub open spec fn padded(s: Seq<char>, width: nat) -> Seq<char> {
    if s.len() >= width {
        s
    } else {
        s + Seq::new((width - s.len()) as nat, |i: int| ' ')
    }
}

/// Hours and minutes, from seconds.
pub open spec fn hours_minutes(secs: nat) -> Seq<char> {
    decimal(secs / 3600) + "h"@ + two_digits((secs % 3600) / 60) + "m"@
}

proof fn lemma_digit(d: nat)
    requires
        d < 10,
    ensures
        is_digit(digit(d)),
        digit_value(digit(d)) == d,
{
}

/// A number in decimal is a row of digits with that value.
pub proof fn lemma_decimal(n: nat)
    ensures
        decimal(n).len() > 0,
        all_digits(decimal(n)),
        value_of(decimal(n)) == n,
    decreases n,
{
    if n < 10 {
        lemma_digit(n);
        assert(decimal(n).drop_last() =~= Seq::<char>::empty());
        assert(value_of(Seq::<char>::empty()) == 0);
    } else {
        lemma_decimal(n / 10);
        lemma_digit(n % 10);
        assert(decimal(n).drop_last() =~= decimal(n / 10));
    }
}

/// Reading back a number that was written in decimal gives that number.
pub proof fn law_number_reads_decimal(n: u64)
    ensures
        number(decimal(n as nat)) == Some(n),
{
    lemma_decimal(n as nat);
    assert(is_digit(decimal(n as nat)[0]));
}

proof fn lemma_value_grows(s: Seq<char>, n: int)
    requires
        0 <= n <= s.len(),
    ensures
        value_of(s.take(n)) <= value_of(s),
    decreases s.len() - n,
{
    if n == s.len() {
        assert(s.take(n) =~= s);
    } else {
        lemma_value_grows(s, n + 1);
        assert(s.take(n + 1).drop_last() =~= s.take(n));
    }
}

/// The character that stands for a number below ten.
fn digit_char(d: u64) -> (r: char)
    requires
        d < 10,
    ensures
        r == digit(d as nat),
{
    (48 + d as u8) as char
}

/// The number in decimal.
pub fn decimal_text(n: u64) -> (r: String)
    ensures
        r@ == decimal(n as nat),
    decreases n,
{
    if n < 10 {
        let mut out: String = String::new();
        out.push(digit_char(n));
        assert(out@ =~= decimal(n as nat));
        out
    } else {
        let mut out: String = decimal_text(n / 10);
        out.push(digit_char(n % 10));
        out
    }
}

/// The number that the characters stand for.
pub fn parse_number(cs: &Vec<char>) -> (r: Option<u64>)
    ensures
        r == number(cs@),
{
    let start: usize = if cs.len() > 0 && cs[0] == '+' {
        1
    } else {
        0
    };
    let ghost d = digits_part(cs@);
    assert(d =~= cs@.skip(start as int));
    if cs.len() == start {
        return None;
    }
    let mut v: u64 = 0;
    let mut i: usize = start;
    assert(d.take(0) =~= Seq::<char>::empty());
    while i < cs.len()
        invariant
            start <= i <= cs.len(),
            d == digits_part(cs@),
            d == cs@.skip(start as int),
            v == value_of(d.take(i - start)),
            all_digits(d.take(i - start)),
        decreases cs.len() - i,
    {
        let c: char = cs[i];
        assert(c == d[i - start]);
        if c < '0' || c > '9' {
            assert(!is_digit(d[i - start]));
            return None;
        }
        let x: u64 = (c as u32 - 48) as u64;
        proof {
            let now = d.take(i - start + 1);
            assert(now.drop_last() =~= d.take(i - start));
            assert(now.last() == c);
            lemma_value_grows(d, i - start + 1);
            assert(value_of(now) == v * 10 + x);
            assert forall|j: int| 0 <= j < now.len() implies is_digit(#[trigger] now[j]) by {
                if j < i - start {
                    assert(now[j] == d.take(i - start)[j]);
                }
            }
        }
        if v > (u64::MAX - x) / 10 {
            return None;
        }
        v = v * 10 + x;
        i = i + 1;
    }
    assert(d.take(d.len() as int) =~= d);
    Some(v)
}

/// The number with at least two digits.
pub fn two_digit_text(n: u64) -> (r: String)
    ensures
        r@ == two_digits(n as nat),
{
    if n < 10 {
        let mut out: String = String::new();
        out.push('0');
        out.push(digit_char(n));
        assert(out@ =~= two_digits(n as nat));
        out
    } else {
        decimal_text(n)
    }
}

/// The text with spaces after it, up to `width` characters.
pub fn pad_right(s: &str, width: usize) -> (r: String)
    ensures
        r@ == padded(s@, width as nat),
{
    let mut out: String = text::copy(s);
    let mut n: usize = text::to_chars(s).len();
    let ghost start = n;
    while n < width
        invariant
            start == s@.len(),
            start <= n,
            n <= width || n == start,
            out@ == s@ + Seq::new((n - start) as nat, |i: int| ' '),
        decreases width - n,
    {
        out.push(' ');
        proof {
            assert(out@ =~= s@ + Seq::new((n + 1 - start) as nat, |i: int| ' '));
        }
        n = n + 1;
    }
    assert(out@ =~= padded(s@, width as nat));
    out
}

/// Hours and minutes, from seconds.
pub fn hours_minutes_text(secs: u64) -> (r: String)
    ensures
        r@ == hours_minutes(secs as nat),
{
    let mut out: String = decimal_text(secs / 3600);
    out.push_str("h");
    out.push_str(two_digit_text((secs % 3600) / 60).as_str());
    out.push_str("m");
    out
}

/// A number is written digit by digit: the last digit stands for the rest of a division by ten, and
/// those before it for the quotient, where that is not zero.
pub proof fn law_number_is_written(n: nat, d: nat, c: char)
    requires
        d < 10,
        c as u32 == 48 + d,
    ensures
        decimal(d) == seq![c],
        n > 0 ==> decimal(10 * n + d) == decimal(n).push(c),
        n < 10 ==> two_digits(10 * n + d).len() == 2 && two_digits(10 * n + d)[0] as u32 == 48 + n
            && two_digits(10 * n + d)[1] == c,
        n >= 10 ==> two_digits(10 * n + d) == decimal(10 * n + d),
{
    assert(digit(d) == c);
    if n > 0 {
        assert((10 * n + d) / 10 == n && (10 * n + d) % 10 == d);
    }
    assert(decimal(d) =~= seq![c]);
    if 0 < n < 10 {
        assert(decimal(n) =~= seq![digit(n)]);
    }
}

/// Digits are read as the number that they stand for: each one counts for itself and makes those
/// before it count for ten times as much, as long as the number fits. A plus sign may stand before
/// them. Whatever has another character in it is no number, and neither is an empty text.
pub proof fn law_number_is_read(s: Seq<char>, c: char, i: int)
    ensures
        number(Seq::<char>::empty()) is None,
        48 <= c as u32 <= 57 ==> number(seq![c]) == Some((c as u32 - 48) as u64),
        48 <= c as u32 <= 57 && number(s) is Some ==> number(s.push(c)) == if 10 * number(s)->0 + (
        c as u32 - 48) <= u64::MAX {
            Some((10 * number(s)->0 + (c as u32 - 48)) as u64)
        } else {
            None
        },
        0 <= i < s.len() && !(48 <= s[i] as u32 <= 57) && !(i == 0 && s[0] == '+') ==> number(
            s,
        ) is None,
        s.len() > 0 && s[0] != '+' ==> number(seq!['+'] + s) == number(s),
{
    if 48 <= c as u32 <= 57 {
        let one = seq![c];
        assert(digits_part(one) == one);
        assert(one.drop_last() =~= Seq::<char>::empty());
        assert(value_of(Seq::<char>::empty()) == 0);
        assert(all_digits(one));
        assert(value_of(one) == (c as u32 - 48));
        if number(s) is Some {
            let d = digits_part(s);
            let e = digits_part(s.push(c));
            assert(e =~= d.push(c));
            assert(e.drop_last() =~= d);
            assert forall|k: int| 0 <= k < e.len() implies is_digit(#[trigger] e[k]) by {
                if k < d.len() {
                    assert(e[k] == d[k]);
                }
            }
        }
    }
    if 0 <= i < s.len() && !(48 <= s[i] as u32 <= 57) && !(i == 0 && s[0] == '+') {
        let d = digits_part(s);
        let k = if s[0] == '+' {
            i - 1
        } else {
            i
        };
        assert(d[k] == s[i]);
        assert(!is_digit(d[k]));
    }
    if s.len() > 0 && s[0] != '+' {
        assert(digits_part(seq!['+'] + s) =~= s);
    }
}

/// A text that is padded keeps all of its characters and gets spaces behind them, just as many as
/// it lacks.
pub proof fn law_text_is_padded(s: Seq<char>, width: nat, i: int)
    ensures
        padded(s, width).len() == if s.len() < width {
            width
        } else {
            s.len()
        },
        0 <= i < s.len() ==> padded(s, width)[i] == s[i],
        s.len() <= i < width ==> padded(s, width)[i] == ' ',
{
}

/// A time is written in full hours and in the full minutes that are left, these with two digits.
pub proof fn law_time_is_written(hours: nat, minutes: nat, secs: nat)
    requires
        minutes < 60,
        secs < 60,
    ensures
        hours_minutes(3600 * hours + 60 * minutes + secs) == decimal(hours) + "h"@ + two_digits(
            minutes,
        ) + "m"@,
{
    let n = 3600 * hours + 60 * minutes + secs;
    assert(n / 3600 == hours);
    assert(n % 3600 == 60 * minutes + secs);
    assert((60 * minutes + secs) / 60 == minutes);
}

} // verus!
