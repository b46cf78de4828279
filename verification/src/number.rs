//! Numbers as text, and columns.
use crate::text::chars_of;
use vstd::prelude::*;
use vstd::string::*;

verus! {

/// One digit as a character.
pub open spec fn digit_char(d: nat) -> char {
    if d < 10 {
        (48 + d) as char
    } else {
        (87 + d) as char
    }
}

/// The digits of `n` in base `base`, without leading zeros; zero is `0`.
pub open spec fn digits(n: nat, base: nat) -> Seq<char>
    decreases n,
{
    if base < 2 {
        seq![]
    } else if n < base {
        seq![digit_char(n)]
    } else {
        proof {
            vstd::arithmetic::div_mod::lemma_div_decreases(n as int, base as int);
        }
        digits(n / base, base).push(digit_char(n % base))
    }
}

/// `n` in decimal.
pub open spec fn decimal(n: nat) -> Seq<char> {
    digits(n, 10)
}

/// `n` in decimal, with a sign in front where it is negative.
pub open spec fn signed(n: int) -> Seq<char> {
    if n < 0 {
        seq!['-'] + decimal((-n) as nat)
    } else {
        decimal(n as nat)
    }
}

/// The number that decimal digits stand for.
pub open spec fn value(s: Seq<char>) -> int
    decreases s.len(),
{
    if s.len() == 0 {
        0
    } else {
        10 * value(s.drop_last()) + (s.last() as int - 48)
    }
}

/// Decimal digits stand for the number that they were written for.
pub proof fn law_decimal_reads_back(n: nat)
    ensures
        value(decimal(n)) == n,
        decimal(n).len() > 0,
        forall|i: int| 0 <= i < decimal(n).len() ==> '0' <= #[trigger] decimal(n)[i] <= '9',
    decreases n,
{
    let s = decimal(n);
    if n < 10 {
        assert(s == seq![digit_char(n)]);
        assert(s.drop_last() =~= seq![]);
        assert(value(s.drop_last()) == 0);
        assert(s.last() as int == 48 + n);
    } else {
        law_decimal_reads_back(n / 10);
        assert(s.drop_last() =~= decimal(n / 10));
        assert(s.last() as int == 48 + n % 10);
    }
}

/// All of the characters are decimal digits, and there are some.
pub open spec fn all_digits(s: Seq<char>) -> bool {
    s.len() > 0 && forall|i: int| 0 <= i < s.len() ==> '0' <= #[trigger] s[i] <= '9'
}

/// The count that a text writes out in decimal, perhaps with a plus sign in front, as far as it is
/// within the given bound.
pub open spec fn counted(s: Seq<char>, most: int) -> Option<int> {
    let digits = if s.len() > 0 && s[0] == '+' {
        s.skip(1)
    } else {
        s
    };
    if all_digits(digits) && value(digits) <= most {
        Some(value(digits))
    } else {
        None
    }
}

proof fn lemma_value_grows(s: Seq<char>, n: int)
    requires
        0 <= n <= s.len(),
        forall|i: int| 0 <= i < s.len() ==> '0' <= #[trigger] s[i] <= '9',
    ensures
        0 <= value(s.take(n)) <= value(s),
    decreases s.len(),
{
    if n == s.len() {
        assert(s.take(n) =~= s);
        if n > 0 {
            lemma_value_grows(s.drop_last(), n - 1);
            assert(s.drop_last().take(n - 1) =~= s.drop_last());
            assert('0' <= s[n - 1] <= '9');
        }
    } else {
        assert(s.drop_last().take(n) =~= s.take(n));
        lemma_value_grows(s.drop_last(), n);
        assert('0' <= s[s.len() - 1] <= '9');
    }
}

/// The count that a text writes out in decimal, perhaps with a plus sign in front.
pub fn parse_count(text: &str) -> (r: Option<usize>)
    ensures
        match r {
            Some(n) => counted(text@, usize::MAX as int) == Some(n as int),
            None => counted(text@, usize::MAX as int) is None,
        },
{
    let chars = chars_of(text);
    let start: usize = if chars.len() > 0 && chars[0] == '+' {
        1
    } else {
        0
    };
    let ghost digits = text@.skip(start as int);
    assert(text@.skip(0) =~= text@);
    if start == chars.len() {
        return None;
    }
    let mut n: usize = 0;
    let mut i: usize = start;
    assert(digits.take(0) =~= seq![]);
    while i < chars.len()
        invariant
            start <= i <= chars.len(),
            chars@ == text@,
            digits == text@.skip(start as int),
            digits == (if text@.len() > 0 && text@[0] == '+' {
                text@.skip(1)
            } else {
                text@
            }),
            forall|j: int| 0 <= j < i - start ==> '0' <= #[trigger] digits[j] <= '9',
            n == value(digits.take(i - start)),
        decreases chars.len() - i,
    {
        let c = chars[i];
        assert(digits[i - start] == c);
        if c < '0' || c > '9' {
            return None;
        }
        assert(digits.take(i - start + 1).drop_last() =~= digits.take(i - start));
        assert(digits.take(i - start + 1).last() == c);
        let d: usize = (c as u32 - 48) as usize;
        if n > (usize::MAX - d) / 10 {
            proof {
                if all_digits(digits) {
                    lemma_value_grows(digits, i - start + 1);
                }
                assert(10 * n + d > usize::MAX);
            }
            return None;
        }
        assert(10 * n + d <= usize::MAX);
        n = 10 * n + d;
        i += 1;
    }
    assert(digits.take(i - start) =~= digits);
    Some(n)
}

fn digit_of(d: u128) -> (r: char)
    requires
        d < 16,
    ensures
        r == digit_char(d as nat),
{
    let n: u8 = d as u8;
    if n < 10 {
        (48 + n) as char
    } else {
        (87 + n) as char
    }
}

/// The digits of a number in decimal or in another base up to sixteen.
pub fn in_base(n: u128, base: u128) -> (r: String)
    requires
        2 <= base <= 16,
    ensures
        r@ == digits(n as nat, base as nat),
    decreases n,
{
    if n < base {
        let mut out = String::new();
        out.push(digit_of(n));
        assert(out@ =~= seq![digit_char(n as nat)]);
        out
    } else {
        proof {
            vstd::arithmetic::div_mod::lemma_div_decreases(n as int, base as int);
            vstd::arithmetic::div_mod::lemma_mod_bound(n as int, base as int);
        }
        let mut out = in_base(n / base, base);
        out.push(digit_of(n % base));
        out
    }
}

/// A number in decimal.
pub fn number(n: u64) -> (r: String)
    ensures
        r@ == decimal(n as nat),
{
    in_base(n as u128, 10)
}

/// A count in decimal.
pub fn count(n: usize) -> (r: String)
    ensures
        r@ == decimal(n as nat),
{
    in_base(n as u128, 10)
}

/// A signed number in decimal.
pub fn signed_number(n: i64) -> (r: String)
    ensures
        r@ == signed(n as int),
{
    if n < 0 {
        let magnitude: u64 = if n == i64::MIN {
            0x8000_0000_0000_0000
        } else {
            (-n) as u64
        };
        let mut out = String::new();
        out.push('-');
        let rest = number(magnitude);
        out.append(rest.as_str());
        assert(out@ =~= signed(n as int));
        out
    } else {
        number(n as u64)
    }
}

/// `c`, `n` times.
pub open spec fn repeated(c: char, n: nat) -> Seq<char> {
    Seq::new(n, |i: int| c)
}

/// How many characters are missing to a width.
pub open spec fn missing(s: Seq<char>, width: nat) -> nat {
    if s.len() < width {
        (width - s.len()) as nat
    } else {
        0
    }
}

/// `s`, with `c` in front of it up to a width.
pub open spec fn padded_left(s: Seq<char>, c: char, width: nat) -> Seq<char> {
    repeated(c, missing(s, width)) + s
}

/// `s`, with spaces behind it up to a width.
pub open spec fn padded_right(s: Seq<char>, width: nat) -> Seq<char> {
    s + repeated(' ', missing(s, width))
}

/// How many characters a text has.
pub fn char_count(text: &str) -> (r: usize)
    ensures
        r == text@.len(),
{
    let chars = chars_of(text);
    chars.len()
}

fn repeat(c: char, n: usize) -> (r: String)
    ensures
        r@ == repeated(c, n as nat),
{
    let mut out = String::new();
    let mut i: usize = 0;
    while i < n
        invariant
            i <= n,
            out@ =~= repeated(c, i as nat),
        decreases n - i,
    {
        out.push(c);
        i += 1;
    }
    out
}

/// The text with `c` in front of it up to a width.
pub fn pad_left(text: &str, c: char, width: usize) -> (r: String)
    ensures
        r@ == padded_left(text@, c, width as nat),
{
    let n = char_count(text);
    let mut out = repeat(
        c,
        if n < width {
            width - n
        } else {
            0
        },
    );
    out.append(text);
    out
}

/// The text with spaces behind it up to a width.
pub fn pad_right(text: &str, width: usize) -> (r: String)
    ensures
        r@ == padded_right(text@, width as nat),
{
    let n = char_count(text);
    let mut out = text.to_owned();
    let space = repeat(
        ' ',
        if n < width {
            width - n
        } else {
            0
        },
    );
    out.append(space.as_str());
    out
}

/// The first `max` characters of `s`.
pub open spec fn first_chars(s: Seq<char>, max: nat) -> Seq<char> {
    if s.len() <= max {
        s
    } else {
        s.take(max as int)
    }
}

/// The first `max` characters of a text.
pub fn take_chars(text: &str, max: usize) -> (r: String)
    ensures
        r@ == first_chars(text@, max as nat),
{
    let chars = chars_of(text);
    if chars.len() <= max {
        text.to_owned()
    } else {
        let out = crate::text::slice_text(&chars, 0, max);
        assert(out@ =~= text@.take(max as int));
        out
    }
}

/// A number with its sign reads back: a minus sign before it where it is below zero and none
/// otherwise, and the digits give how far it is from zero.
pub proof fn law_signed_reads_back(n: int)
    ensures
        n >= 0 ==> value(signed(n)) == n && '0' <= signed(n)[0] <= '9',
        n < 0 ==> signed(n)[0] == '-' && value(signed(n).skip(1)) == -n,
{
    if n >= 0 {
        law_decimal_reads_back(n as nat);
    } else {
        law_decimal_reads_back((-n) as nat);
        assert(signed(n).skip(1) =~= decimal((-n) as nat));
    }
}

/// Padding only adds: the text stands whole at the one end, the padding fills the other up to the
/// width and no further.
pub proof fn law_padding_only_adds(s: Seq<char>, c: char, width: nat)
    ensures
        s.is_suffix_of(padded_left(s, c, width)),
        s.is_prefix_of(padded_right(s, width)),
        s.len() <= width ==> padded_left(s, c, width).len() == width && padded_right(
            s,
            width,
        ).len() == width,
        s.len() > width ==> padded_left(s, c, width) == s && padded_right(s, width) == s,
        forall|i: int|
            0 <= i < padded_left(s, c, width).len() - s.len() ==> #[trigger] padded_left(
                s,
                c,
                width,
            )[i] == c,
        forall|i: int|
            s.len() <= i < padded_right(s, width).len() ==> #[trigger] padded_right(s, width)[i]
                == ' ',
{
}

/// The first characters are the front of the text, all of it where it is short enough.
pub proof fn law_first_characters_are_the_front(s: Seq<char>, max: nat)
    ensures
        first_chars(s, max).is_prefix_of(s),
        s.len() <= max ==> first_chars(s, max) == s,
        s.len() > max ==> first_chars(s, max).len() == max,
{
}

/// A number that is typed is read as what it says, with or without a plus sign before it, as long as
/// it is not too large; anything that holds another character, or nothing, is no number.
pub proof fn law_typed_numbers_are_read(n: nat, most: int, s: Seq<char>, i: int)
    ensures
        n <= most ==> counted(decimal(n), most) == Some(n as int) && counted(
            seq!['+'] + decimal(n),
            most,
        ) == Some(n as int),
        n > most ==> counted(decimal(n), most) is None,
        counted(Seq::empty(), most) is None,
        0 < i < s.len() && !('0' <= s[i] <= '9') ==> counted(s, most) is None,
        s.len() > 0 && s[0] != '+' && !('0' <= s[0] <= '9') ==> counted(s, most) is None,
{
    law_decimal_reads_back(n);
    assert('0' <= decimal(n)[0] <= '9');
    assert((seq!['+'] + decimal(n)).skip(1) =~= decimal(n));
    if 0 < i < s.len() && s[0] == '+' {
        assert(s.skip(1)[i - 1] == s[i]);
    }
}

/// What a text of digits in some base stands for.
pub open spec fn value_in(s: Seq<char>, base: nat) -> int
    decreases s.len(),
{
    if s.len() == 0 {
        0
    } else {
        base * value_in(s.drop_last(), base) + if s.last() <= '9' {
            s.last() as int - '0' as int
        } else {
            s.last() as int - 'a' as int + 10
        }
    }
}

/// The digits of a number read back in every base that has enough of them.
pub proof fn law_digits_read_back(n: nat, base: nat)
    requires
        2 <= base <= 16,
    ensures
        value_in(digits(n, base), base) == n,
    decreases n,
{
    let s = digits(n, base);
    if n < base {
        assert(s.drop_last() =~= seq![]);
        assert(s.last() == digit_char(n));
        assert(value_in(s.drop_last(), base) == 0);
        assert(base * 0 == 0);
    } else {
        vstd::arithmetic::div_mod::lemma_div_decreases(n as int, base as int);
        law_digits_read_back(n / base, base);
        vstd::arithmetic::div_mod::lemma_fundamental_div_mod(n as int, base as int);
        assert(s.drop_last() =~= digits(n / base, base));
        assert(s.last() == digit_char(n % base));
        assert(n % base < base) by (nonlinear_arith)
            requires
                base > 0,
        ;
    }
}

} // verus!
