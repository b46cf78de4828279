//! Texts by their size in bytes.
use crate::text::{cat, chars_of, slice_text};
use vstd::prelude::*;
use vstd::string::*;

verus! {

/// How many bytes a text takes in UTF-8.
pub open spec fn size(s: Seq<char>) -> nat {
    vstd::utf8::encode_utf8(s).len()
}

/// How many bytes a character takes in UTF-8.
pub open spec fn width(c: char) -> nat {
    vstd::utf8::encode_scalar(c as u32).len()
}

fn char_width(c: char) -> (r: usize)
    ensures
        r == width(c),
        1 <= r <= 4,
{
    let n: u32 = c as u32;
    if n <= 0x7f {
        1
    } else if n <= 0x7ff {
        2
    } else if n <= 0xffff {
        3
    } else {
        4
    }
}

/// Every character takes at least a byte.
pub proof fn lemma_width_positive(c: char)
    ensures
        width(c) >= 1,
{
}

/// One more character at the end makes a text longer by the character's width.
pub proof fn lemma_size_push(s: Seq<char>, c: char)
    ensures
        size(s.push(c)) == size(s) + width(c),
    decreases s.len(),
{
    if s.len() == 0 {
        assert(s.push(c).drop_first() =~= s);
    } else {
        assert(s.push(c).drop_first() =~= s.drop_first().push(c));
        lemma_size_push(s.drop_first(), c);
    }
}

/// A longer front takes at least as many bytes.
pub proof fn lemma_size_monotonic(s: Seq<char>, i: int, j: int)
    requires
        0 <= i <= j <= s.len(),
    ensures
        size(s.take(i)) <= size(s.take(j)),
    decreases j - i,
{
    if i < j {
        assert(s.take(j) =~= s.take(j - 1).push(s[j - 1]));
        lemma_size_push(s.take(j - 1), s[j - 1]);
        lemma_size_monotonic(s, i, j - 1);
    }
}

/// `n` is the length of the longest front of `s` that takes at most `max` bytes.
pub open spec fn longest_front(s: Seq<char>, max: nat, n: int) -> bool {
    &&& 0 <= n <= s.len()
    &&& size(s.take(n)) <= max
    &&& n < s.len() ==> size(s.take(n + 1)) > max
}

/// How many characters the longest front within `max` bytes has.
pub fn front_within(chars: &[char], max: usize) -> (r: usize)
    ensures
        longest_front(chars@, max as nat, r as int),
{
    let mut i: usize = 0;
    let mut used: usize = 0;
    assert(chars@.take(0) =~= seq![]);
    while i < chars.len()
        invariant
            i <= chars.len(),
            used == size(chars@.take(i as int)),
            used <= max,
        decreases chars.len() - i,
    {
        let w = char_width(chars[i]);
        assert(chars@.take(i + 1) =~= chars@.take(i as int).push(chars@[i as int]));
        proof {
            lemma_size_push(chars@.take(i as int), chars@[i as int]);
        }
        if w > max - used {
            return i;
        }
        used += w;
        i += 1;
    }
    i
}

/// Some front of `s` takes exactly `max` bytes.
pub open spec fn divides_at(s: Seq<char>, max: nat) -> bool {
    exists|n: int| 0 <= n <= s.len() && size(#[trigger] s.take(n)) == max
}

/// The front of the text that takes exactly `max` bytes, where one does.
pub fn front_of_size(text: &str, max: usize) -> (r: Option<String>)
    ensures
        match r {
            Some(front) => size(front@) == max && exists|n: int|
                0 <= n <= text@.len() && front@ == #[trigger] text@.take(n),
            None => !divides_at(text@, max as nat),
        },
{
    let chars = chars_of(text);
    let n = front_within(&chars, max);
    let front = slice_text(&chars, 0, n);
    assert(front@ =~= text@.take(n as int));
    let mut i: usize = 0;
    let mut used: usize = 0;
    assert(text@.take(0) =~= seq![]);
    while i < n
        invariant
            i <= n <= chars.len(),
            chars@ == text@,
            used == size(text@.take(i as int)),
            size(text@.take(n as int)) <= max,
        decreases n - i,
    {
        proof {
            lemma_size_monotonic(text@, i + 1, n as int);
            assert(text@.take(i + 1) =~= text@.take(i as int).push(text@[i as int]));
            lemma_size_push(text@.take(i as int), text@[i as int]);
        }
        used += char_width(chars[i]);
        i += 1;
    }
    if used == max {
        return Some(front);
    }
    proof {
        if divides_at(text@, max as nat) {
            let m = choose|m: int| 0 <= m <= text@.len() && size(#[trigger] text@.take(m)) == max;
            if m <= n {
                lemma_size_monotonic(text@, m, n as int);
            } else {
                lemma_size_monotonic(text@, n + 1, m);
            }
        }
    }
    None
}

/// The text, cut to at most `max` bytes where it takes more, with a note that it was cut.
pub open spec fn capped(s: Seq<char>, max: nat, r: Seq<char>) -> bool {
    if size(s) <= max {
        r == s
    } else {
        exists|n: int| #[trigger]
            longest_front(s, max, n) && r == s.take(n) + "\n… (output truncated)"@
    }
}

/// The text, cut to at most `max` bytes between two characters where it takes more, with a note
/// that it was cut.
pub fn cap(text: &str, max: usize) -> (r: String)
    ensures
        capped(text@, max as nat, r@),
{
    let chars = chars_of(text);
    let n = front_within(&chars, max);
    assert(text@.take(text@.len() as int) =~= text@);
    proof {
        lemma_size_monotonic(text@, if n < text@.len() {
            n + 1
        } else {
            n as int
        }, text@.len() as int);
    }
    if n == chars.len() {
        return text.to_owned();
    }
    let front = slice_text(&chars, 0, n);
    assert(front@ =~= text@.take(n as int));
    cat(front.as_str(), "\n… (output truncated)")
}

/// How many characters the longest front of `s` within `max` bytes has.
pub open spec fn fitting(s: Seq<char>, max: nat) -> nat
    decreases s.len(),
{
    if s.len() == 0 || size(s) <= max {
        s.len()
    } else {
        fitting(s.drop_last(), max)
    }
}

/// The longest front is the longest front.
pub proof fn lemma_fitting(s: Seq<char>, max: nat)
    ensures
        longest_front(s, max, fitting(s, max) as int),
    decreases s.len(),
{
    assert(s.take(s.len() as int) =~= s);
    if s.len() > 0 && size(s) > max {
        lemma_fitting(s.drop_last(), max);
        let n = fitting(s.drop_last(), max) as int;
        assert(s.drop_last().take(n) =~= s.take(n));
        if n < s.len() - 1 {
            assert(s.drop_last().take(n + 1) =~= s.take(n + 1));
        } else {
            assert(s.take(n + 1) =~= s);
        }
    }
}

/// What is left of a text after the cut is its front and takes at most `max` bytes.
pub proof fn law_cap_bounds_the_output(s: Seq<char>, max: nat, r: Seq<char>)
    requires
        capped(s, max, r),
    ensures
        size(s) <= max ==> r == s,
        size(s) > max ==> exists|n: int|
            0 <= n < s.len() && size(#[trigger] s.take(n)) <= max && r == s.take(n)
                + "\n… (output truncated)"@,
{
    if size(s) > max {
        let n = choose|n: int| #[trigger]
            longest_front(s, max, n) && r == s.take(n) + "\n… (output truncated)"@;
        if n == s.len() {
            assert(s.take(n) =~= s);
        }
        assert(size(s.take(n)) <= max);
    }
}

} // verus!
