//! Splitting a text into lines, words and parts, joining parts again, and replacing.
use crate::scan;
use crate::scan::{find_char, find_chars, Class};
use crate::text;
use crate::text::{chars_of, is_whitespace, slice_text};
use vstd::prelude::*;
use vstd::string::*;

verus! {

broadcast use crate::text::group_views;

// ---------------------------------------------------------------------------------------------
// Lines
// ---------------------------------------------------------------------------------------------

/// A line without the carriage return at its end.
pub open spec fn without_cr(s: Seq<char>) -> Seq<char> {
    if s.len() > 0 && s.last() == '\r' {
        s.drop_last()
    } else {
        s
    }
}

/// The lines of `s` from index `from` on. A line ends before `\n` or `\r\n`; text behind the last
/// line break is a line if there is any.
pub open spec fn lines_from(s: Seq<char>, from: int) -> Seq<Seq<char>>
    decreases s.len() - from,
{
    if from < 0 || from >= s.len() {
        seq![]
    } else {
        proof {
            scan::lemma_char_at(s, '\n', from);
        }
        match scan::char_at(s, '\n', from) {
            None => seq![s.skip(from)],
            Some(i) => seq![without_cr(s.subrange(from, i))] + lines_from(s, i + 1),
        }
    }
}

/// The lines of a text.
pub open spec fn lines(s: Seq<char>) -> Seq<Seq<char>> {
    lines_from(s, 0)
}

/// The lines of a text.
pub fn split_lines(text: &str) -> (r: Vec<String>)
    ensures
        text::views(r@) == lines(text@),
{
    let chars = chars_of(text);
    let mut out: Vec<String> = Vec::new();
    let mut from: usize = 0;
    while from < chars.len()
        invariant
            from <= chars.len(),
            chars@ == text@,
            text::views(out@) + lines_from(text@, from as int) == lines(text@),
        decreases chars.len() - from,
    {
        match find_char(&chars, '\n', from) {
            None => {
                let last = slice_text(&chars, from, chars.len());
                assert(last@ =~= text@.skip(from as int));
                out.push(last);
                return out;
            },
            Some(i) => {
                let ghost part = text@.subrange(from as int, i as int);
                let end: usize = if i > from && chars[i - 1] == '\r' {
                    i - 1
                } else {
                    i
                };
                let line = slice_text(&chars, from, end);
                assert(line@ =~= without_cr(part));
                let ghost before = out@;
                out.push(line);
                assert(text::views(out@) =~= text::views(before).push(without_cr(part)));
                assert(text::views(out@) + lines_from(text@, i + 1) =~= text::views(before) + (seq![
                    without_cr(part),
                ] + lines_from(text@, i + 1)));
                from = i + 1;
            },
        }
    }
    assert(text::views(out@) + lines_from(text@, from as int) =~= text::views(out@));
    out
}

// ---------------------------------------------------------------------------------------------
// Words
// ---------------------------------------------------------------------------------------------

/// Anything but white space, as a predicate.
pub open spec fn dark() -> spec_fn(char) -> bool {
    |c: char| !text::is_white(c)
}

/// The words of a text: its longest stretches without white space.
pub open spec fn words(s: Seq<char>) -> Seq<Seq<char>>
    decreases s.len(),
{
    let t = scan::trim_front(s, scan::white());
    let n = scan::span(t, dark());
    if t.len() == 0 || n == 0 {
        seq![]
    } else {
        proof {
            scan::lemma_span_bound(s, scan::white());
            scan::lemma_span_bound(t, dark());
        }
        seq![t.take(n as int)] + words(t.skip(n as int))
    }
}

/// How many characters stand before the first white space.
fn word_length(chars: &[char]) -> (r: usize)
    ensures
        r == scan::span(chars@, dark()),
        r <= chars.len(),
{
    let mut i: usize = 0;
    while i < chars.len() && !is_whitespace(chars[i])
        invariant
            i <= chars.len(),
            forall|j: int| 0 <= j < i ==> dark()(#[trigger] chars@[j]),
        decreases chars.len() - i,
    {
        i += 1;
    }
    proof {
        scan::lemma_span_unique(chars@, dark(), i as nat);
    }
    i
}

/// The words of a text.
pub fn split_words(text: &str) -> (r: Vec<String>)
    ensures
        text::views(r@) == words(text@),
{
    let mut rest: Vec<char> = chars_of(text);
    let mut out: Vec<String> = Vec::new();
    loop
        invariant
            text::views(out@) + words(rest@) == words(text@),
        decreases rest.len(),
    {
        let from = scan::front_index(&rest, &Class::White);
        let tail: Vec<char> = text::tail_of(&rest, from);
        let n = word_length(&tail);
        assert(tail@ == scan::trim_front(rest@, scan::white()));
        if n == 0 {
            proof {
                scan::lemma_span_bound(tail@, dark());
                scan::lemma_span_bound(rest@, scan::white());
                if tail.len() > 0 {
                    assert(tail@[0] == rest@[from as int]);
                    assert(false);
                }
            }
            assert(text::views(out@) + words(rest@) =~= text::views(out@));
            return out;
        }
        let ghost before = out@;
        let word = slice_text(&tail, 0, n);
        assert(word@ =~= tail@.take(n as int));
        out.push(word);
        let next: Vec<char> = text::tail_of(&tail, n);
        assert(text::views(out@) + words(next@) =~= text::views(before) + (seq![word@] + words(
            next@,
        )));
        rest = next;
    }
}

// ---------------------------------------------------------------------------------------------
// Parts
// ---------------------------------------------------------------------------------------------

/// The parts of `s` from index `from` on that the character `c` separates.
pub open spec fn parts_from(s: Seq<char>, c: char, from: int) -> Seq<Seq<char>>
    decreases s.len() + 1 - from,
{
    if from < 0 || from > s.len() {
        seq![]
    } else {
        proof {
            scan::lemma_char_at(s, c, from);
        }
        match scan::char_at(s, c, from) {
            None => seq![s.skip(from)],
            Some(i) => seq![s.subrange(from, i)] + parts_from(s, c, i + 1),
        }
    }
}

/// The parts of `s` that the character `c` separates.
pub open spec fn parts(s: Seq<char>, c: char) -> Seq<Seq<char>> {
    parts_from(s, c, 0)
}

/// A part without the separator, put behind a separator at the end, is one part more.
pub proof fn lemma_parts_pushed(a: Seq<char>, c: char, b: Seq<char>, from: int)
    requires
        0 <= from <= a.len(),
        !b.contains(c),
    ensures
        parts_from(a + seq![c] + b, c, from) == parts_from(a, c, from).push(b),
    decreases a.len() - from,
{
    let s = a + seq![c] + b;
    scan::lemma_char_at(a, c, from);
    scan::lemma_char_at(s, c, from);
    match scan::char_at(a, c, from) {
        Some(i) => {
            assert(s[i] == c);
            let k = scan::char_at(s, c, from)->0;
            assert(k == i) by {
                if k < i {
                    assert(a[k] == s[k]);
                }
            }
            lemma_parts_pushed(a, c, b, i + 1);
            assert(s.subrange(from, i) =~= a.subrange(from, i));
            assert(parts_from(s, c, from) =~= parts_from(a, c, from).push(b));
        },
        None => {
            assert(s[a.len() as int] == c);
            let k = scan::char_at(s, c, from)->0;
            assert(k == a.len()) by {
                if k < a.len() {
                    assert(a[k] == s[k]);
                }
            }
            scan::lemma_char_at(s, c, k + 1);
            assert(scan::char_at(s, c, k + 1) is None) by {
                if scan::char_at(s, c, k + 1) is Some {
                    let j = scan::char_at(s, c, k + 1)->0;
                    assert(b[j - a.len() - 1] == c);
                }
            }
            assert(s.subrange(from, k) =~= a.skip(from));
            assert(s.skip(k + 1) =~= b);
            assert(parts_from(s, c, k + 1) =~= seq![b]);
            assert(parts_from(s, c, from) =~= seq![a.skip(from), b]);
        },
    }
}

/// No part holds the separator.
pub proof fn lemma_parts_hold_no_separator(s: Seq<char>, c: char, from: int, i: int)
    requires
        0 <= from,
        0 <= i < parts_from(s, c, from).len(),
    ensures
        !parts_from(s, c, from)[i].contains(c),
    decreases s.len() + 1 - from,
{
    scan::lemma_char_at(s, c, from);
    match scan::char_at(s, c, from) {
        None => {
            assert(!s.skip(from).contains(c));
        },
        Some(k) => {
            if i == 0 {
                assert(!s.subrange(from, k).contains(c));
            } else {
                lemma_parts_hold_no_separator(s, c, k + 1, i - 1);
            }
        },
    }
}

/// No part holds what the whole does not.
pub proof fn lemma_parts_bring_nothing(s: Seq<char>, c: char, from: int, i: int, other: char)
    requires
        0 <= from,
        0 <= i < parts_from(s, c, from).len(),
        !s.contains(other),
    ensures
        !parts_from(s, c, from)[i].contains(other),
    decreases s.len() + 1 - from,
{
    scan::lemma_char_at(s, c, from);
    match scan::char_at(s, c, from) {
        None => {
            assert(!s.skip(from).contains(other));
        },
        Some(k) => {
            if i == 0 {
                assert(!s.subrange(from, k).contains(other));
            } else {
                lemma_parts_bring_nothing(s, c, k + 1, i - 1, other);
            }
        },
    }
}

/// The parts of a text that the character `c` separates.
pub fn split_char(text: &str, c: char) -> (r: Vec<String>)
    ensures
        text::views(r@) == parts(text@, c),
{
    let chars = chars_of(text);
    let mut out: Vec<String> = Vec::new();
    let mut from: usize = 0;
    loop
        invariant
            from <= chars.len(),
            chars@ == text@,
            text::views(out@) + parts_from(text@, c, from as int) == parts(text@, c),
        decreases chars.len() - from,
    {
        match find_char(&chars, c, from) {
            None => {
                let last = slice_text(&chars, from, chars.len());
                assert(last@ =~= text@.skip(from as int));
                out.push(last);
                return out;
            },
            Some(i) => {
                let ghost before = out@;
                let part = slice_text(&chars, from, i);
                out.push(part);
                assert(text::views(out@) + parts_from(text@, c, i + 1) =~= text::views(before) + (
                seq![part@] + parts_from(text@, c, i + 1)));
                from = i + 1;
            },
        }
    }
}

/// The text before and behind the first character equal to `c`, where there is one.
pub open spec fn cut(s: Seq<char>, c: char) -> Option<(Seq<char>, Seq<char>)> {
    match scan::char_at(s, c, 0) {
        Some(i) => Some((s.take(i), s.skip(i + 1))),
        None => None,
    }
}

/// The text before and behind the first character equal to `c`, where there is one.
pub fn split_once(text: &str, c: char) -> (r: Option<(String, String)>)
    ensures
        match r {
            Some(pair) => cut(text@, c) == Some((pair.0@, pair.1@)),
            None => cut(text@, c) is None,
        },
{
    let chars = chars_of(text);
    match find_char(&chars, c, 0) {
        Some(i) => {
            let head = slice_text(&chars, 0, i);
            let tail = slice_text(&chars, i + 1, chars.len());
            assert(head@ =~= text@.take(i as int));
            assert(tail@ =~= text@.skip(i + 1));
            Some((head, tail))
        },
        None => None,
    }
}

// ---------------------------------------------------------------------------------------------
// Joining
// ---------------------------------------------------------------------------------------------

/// The parts one behind the other, with `sep` between any two.
pub open spec fn joined(parts: Seq<Seq<char>>, sep: Seq<char>) -> Seq<char>
    decreases parts.len(),
{
    if parts.len() == 0 {
        seq![]
    } else if parts.len() == 1 {
        parts[0]
    } else {
        joined(parts.drop_last(), sep) + sep + parts.last()
    }
}

/// The parts one behind the other, with `sep` between any two.
pub fn join(parts: &[String], sep: &str) -> (r: String)
    ensures
        r@ == joined(text::views(parts@), sep@),
{
    let mut out = String::new();
    let mut i: usize = 0;
    while i < parts.len()
        invariant
            i <= parts.len(),
            out@ == joined(text::views(parts@.take(i as int)), sep@),
        decreases parts.len() - i,
    {
        let ghost all = text::views(parts@.take(i + 1));
        assert(all.drop_last() =~= text::views(parts@.take(i as int)));
        assert(all.last() == parts@[i as int]@);
        if i > 0 {
            out.append(sep);
        }
        out.append(parts[i].as_str());
        assert(out@ =~= joined(all, sep@));
        i += 1;
    }
    assert(parts@.take(i as int) =~= parts@);
    out
}

// ---------------------------------------------------------------------------------------------
// Replacing
// ---------------------------------------------------------------------------------------------

/// `s` from index `from` on, with each occurrence of `p`, taken from the left and not
/// overlapping, replaced by `with`.
pub open spec fn replaced_from(s: Seq<char>, p: Seq<char>, with: Seq<char>, from: int) -> Seq<char>
    decreases s.len() + 1 - from,
{
    if from < 0 || from > s.len() || p.len() == 0 {
        seq![]
    } else {
        proof {
            scan::lemma_find_from(s, p, from);
        }
        match scan::find_from(s, p, from) {
            None => s.skip(from),
            Some(i) => s.subrange(from, i) + with + replaced_from(s, p, with, i + p.len()),
        }
    }
}

/// Where a pattern stands behind an index, it stands in what is left there.
proof fn lemma_find_shift(s: Seq<char>, p: Seq<char>, from: int, at: int)
    requires
        0 <= from <= at,
        from <= s.len(),
    ensures
        match scan::find_from(s, p, at) {
            Some(i) => scan::find_from(s.skip(from), p, at - from) == Some(i - from),
            None => scan::find_from(s.skip(from), p, at - from) is None,
        },
    decreases s.len() + 1 - at,
{
    let rest = s.skip(from);
    if at + p.len() <= s.len() {
        assert(s.subrange(at, at + p.len()) =~= rest.subrange(at - from, at - from + p.len()));
        if !scan::occurs_at(s, p, at) {
            lemma_find_shift(s, p, from, at + 1);
        }
    }
}

proof fn lemma_replaced_shift_at(s: Seq<char>, p: Seq<char>, with: Seq<char>, from: int, at: int)
    requires
        0 <= from <= at <= s.len(),
        p.len() > 0,
    ensures
        replaced_from(s, p, with, at) == replaced_from(s.skip(from), p, with, at - from),
    decreases s.len() + 1 - at,
{
    let rest = s.skip(from);
    lemma_find_shift(s, p, from, at);
    scan::lemma_find_from(s, p, at);
    match scan::find_from(s, p, at) {
        None => {
            assert(s.skip(at) =~= rest.skip(at - from));
        },
        Some(i) => {
            lemma_replaced_shift_at(s, p, with, from, i + p.len());
            assert(s.subrange(at, i) =~= rest.subrange(at - from, i - from));
        },
    }
}

/// Replacing from an index on is replacing in what is left there.
pub proof fn lemma_replaced_shift(s: Seq<char>, p: Seq<char>, with: Seq<char>, from: int)
    requires
        0 <= from <= s.len(),
        p.len() > 0,
    ensures
        replaced_from(s, p, with, from) == replaced_from(s.skip(from), p, with, 0),
{
    lemma_replaced_shift_at(s, p, with, from, from);
}

/// `s` with each occurrence of `p`, taken from the left and not overlapping, replaced by `with`.
pub open spec fn replaced(s: Seq<char>, p: Seq<char>, with: Seq<char>) -> Seq<char> {
    replaced_from(s, p, with, 0)
}

/// The text with each occurrence of the pattern replaced.
pub fn replace_all(text: &str, pattern: &str, with: &str) -> (r: String)
    requires
        pattern@.len() > 0,
    ensures
        r@ == replaced(text@, pattern@, with@),
{
    let chars = chars_of(text);
    let wanted = chars_of(pattern);
    let mut out = String::new();
    let mut from: usize = 0;
    loop
        invariant
            from <= chars.len(),
            chars@ == text@,
            wanted@ == pattern@,
            pattern@.len() > 0,
            out@ + replaced_from(text@, pattern@, with@, from as int) == replaced(
                text@,
                pattern@,
                with@,
            ),
        decreases chars.len() - from,
    {
        match find_chars(&chars, &wanted, from) {
            None => {
                let last = slice_text(&chars, from, chars.len());
                assert(last@ =~= text@.skip(from as int));
                out.append(last.as_str());
                return out;
            },
            Some(i) => {
                let part = slice_text(&chars, from, i);
                let ghost before = out@;
                out.append(part.as_str());
                out.append(with);
                let ghost rest = replaced_from(text@, pattern@, with@, i + pattern@.len());
                assert(out@ + rest =~= before + (part@ + with@ + rest));
                from = i + wanted.len();
            },
        }
    }
}

/// How many occurrences of `p` there are in `s` from index `from` on, taken from the left and not
/// overlapping.
pub open spec fn matches_from(s: Seq<char>, p: Seq<char>, from: int) -> nat
    decreases s.len() + 1 - from,
{
    if from < 0 || from > s.len() || p.len() == 0 {
        0
    } else {
        proof {
            scan::lemma_find_from(s, p, from);
        }
        match scan::find_from(s, p, from) {
            None => 0,
            Some(i) => 1 + matches_from(s, p, i + p.len()),
        }
    }
}

/// How many occurrences of the pattern there are, taken from the left and not overlapping.
pub fn count_matches(chars: &[char], pattern: &[char]) -> (r: usize)
    requires
        pattern@.len() > 0,
    ensures
        r == matches_from(chars@, pattern@, 0),
{
    let mut n: usize = 0;
    let mut from: usize = 0;
    loop
        invariant
            n <= from <= chars.len(),
            pattern@.len() > 0,
            n + matches_from(chars@, pattern@, from as int) == matches_from(chars@, pattern@, 0),
        decreases chars.len() - from,
    {
        match find_chars(chars, pattern, from) {
            None => {
                return n;
            },
            Some(i) => {
                n += 1;
                from = i + pattern.len();
            },
        }
    }
}

// ---------------------------------------------------------------------------------------------
// What splitting keeps
// ---------------------------------------------------------------------------------------------

proof fn lemma_flat_first(first: Seq<char>, rest: Seq<Seq<char>>)
    ensures
        (seq![first] + rest).flatten() == first + rest.flatten(),
{
    let all = seq![first] + rest;
    assert(all.drop_first() =~= rest);
    assert(all.first() == first);
}

/// The lines, each with its end.
pub open spec fn ended(lines: Seq<Seq<char>>) -> Seq<Seq<char>> {
    lines.map_values(|line: Seq<char>| line.push('\n'))
}

proof fn lemma_lines_keep(s: Seq<char>, from: int)
    requires
        0 <= from <= s.len(),
        !s.contains('\r'),
    ensures
        ended(lines_from(s, from)).flatten() == if from == s.len() || s.last() == '\n' {
            s.skip(from)
        } else {
            s.skip(from).push('\n')
        },
        forall|i: int|
            0 <= i < lines_from(s, from).len() ==> !(#[trigger] lines_from(s, from)[i]).contains(
                '\n',
            ),
    decreases s.len() - from,
{
    if from < s.len() {
        scan::lemma_char_at(s, '\n', from);
        match scan::char_at(s, '\n', from) {
            None => {
                let last = s.skip(from);
                let none: Seq<Seq<char>> = seq![];
                assert(ended(seq![last]) =~= seq![last.push('\n')] + none);
                lemma_flat_first(last.push('\n'), none);
                assert(last.push('\n') + none.flatten() =~= last.push('\n'));
                assert(s.last() == s[s.len() - 1]);
            },
            Some(i) => {
                let first = s.subrange(from, i);
                assert(without_cr(first) == first) by {
                    if first.len() > 0 {
                        assert(first.last() == s[i - 1]);
                    }
                }
                lemma_lines_keep(s, i + 1);
                let rest = lines_from(s, i + 1);
                assert(ended(seq![first] + rest) =~= seq![first.push('\n')] + ended(rest));
                lemma_flat_first(first.push('\n'), ended(rest));
                assert(first.push('\n') + s.skip(i + 1) =~= s.skip(from));
                assert(first.push('\n') + s.skip(i + 1).push('\n') =~= s.skip(from).push('\n'));
                assert forall|k: int| 0 <= k < lines_from(s, from).len() implies !(
                #[trigger] lines_from(s, from)[k]).contains('\n') by {
                    if k > 0 {
                        assert(lines_from(s, from)[k] == rest[k - 1]);
                    } else {
                        assert(lines_from(s, from)[0] == first);
                    }
                }
            },
        }
    } else {
        assert(ended(lines_from(s, from)) =~= seq![]);
        assert(s.skip(from) =~= seq![]);
    }
}

/// The lines of a text are the text: with a line end behind each they give it back, but for a line
/// end that its last line lacked, and no line holds a line end. (A carriage return before a line end
/// belongs to that end; here the text has none.)
pub proof fn law_lines_are_the_text(s: Seq<char>)
    requires
        !s.contains('\r'),
    ensures
        s.len() == 0 ==> lines(s).len() == 0,
        s.len() > 0 && s.last() == '\n' ==> ended(lines(s)).flatten() == s,
        s.len() > 0 && s.last() != '\n' ==> ended(lines(s)).flatten() == s.push('\n'),
        forall|i: int| 0 <= i < lines(s).len() ==> !(#[trigger] lines(s)[i]).contains('\n'),
{
    lemma_lines_keep(s, 0);
    assert(s.skip(0) =~= s);
}

proof fn lemma_filter_none(s: Seq<char>, p: spec_fn(char) -> bool)
    requires
        forall|i: int| 0 <= i < s.len() ==> !p(#[trigger] s[i]),
    ensures
        s.filter(p) == Seq::<char>::empty(),
    decreases s.len(),
{
    reveal(Seq::filter);
    if s.len() > 0 {
        assert forall|i: int| 0 <= i < s.drop_last().len() implies !p(
            #[trigger] s.drop_last()[i],
        ) by {
            assert(s.drop_last()[i] == s[i]);
        }
        lemma_filter_none(s.drop_last(), p);
        assert(!p(s[s.len() - 1]));
    }
}

proof fn lemma_filter_all(s: Seq<char>, p: spec_fn(char) -> bool)
    requires
        forall|i: int| 0 <= i < s.len() ==> p(#[trigger] s[i]),
    ensures
        s.filter(p) == s,
    decreases s.len(),
{
    reveal(Seq::filter);
    if s.len() > 0 {
        assert forall|i: int| 0 <= i < s.drop_last().len() implies p(
            #[trigger] s.drop_last()[i],
        ) by {
            assert(s.drop_last()[i] == s[i]);
        }
        lemma_filter_all(s.drop_last(), p);
        assert(p(s[s.len() - 1]));
        assert(s.drop_last().push(s.last()) =~= s);
    }
}

/// The words of a text are all of it but the white space, in order: run together they give every
/// character that is not white space, and no word is empty or holds any.
pub proof fn law_words_are_the_text(s: Seq<char>)
    ensures
        words(s).flatten() == s.filter(|c: char| !text::is_white(c)),
        forall|i: int|
            0 <= i < words(s).len() ==> (#[trigger] words(s)[i]).len() > 0 && (forall|k: int|
                0 <= k < words(s)[i].len() ==> !text::is_white(#[trigger] words(s)[i][k])),
    decreases s.len(),
{
    let p = |c: char| !text::is_white(c);
    let space = scan::span(s, scan::white()) as int;
    let t = scan::trim_front(s, scan::white());
    let n = scan::span(t, dark()) as int;
    scan::lemma_span_bound(s, scan::white());
    scan::lemma_span_bound(t, dark());
    assert(s =~= s.take(space) + t);
    Seq::filter_distributes_over_add(s.take(space), t, p);
    assert forall|i: int| 0 <= i < s.take(space).len() implies !p(#[trigger] s.take(space)[i]) by {
        assert(scan::white()(s[i]));
    }
    lemma_filter_none(s.take(space), p);
    assert(s.filter(p) =~= t.filter(p));
    if t.len() == 0 || n == 0 {
        if t.len() > 0 {
            assert(t[0] == s[space]);
            assert(!dark()(t[0]));
            assert(false);
        }
        assert(t =~= seq![]);
        lemma_filter_none(t, p);
        assert(words(s) =~= seq![]);
    } else {
        let first = t.take(n);
        let rest = t.skip(n);
        law_words_are_the_text(rest);
        assert(t =~= first + rest);
        Seq::filter_distributes_over_add(first, rest, p);
        assert forall|i: int| 0 <= i < first.len() implies p(#[trigger] first[i]) by {
            assert(dark()(t[i]));
        }
        lemma_filter_all(first, p);
        lemma_flat_first(first, words(rest));
        assert(words(s) == seq![first] + words(rest));
        assert forall|i: int| 0 <= i < words(s).len() implies (#[trigger] words(s)[i]).len() > 0 && (
        forall|k: int| 0 <= k < words(s)[i].len() ==> !text::is_white(#[trigger] words(s)[i][k])) by {
            if i > 0 {
                assert(words(s)[i] == words(rest)[i - 1]);
            } else {
                assert forall|k: int| 0 <= k < first.len() implies !text::is_white(
                    #[trigger] first[k],
                ) by {
                    assert(p(first[k]));
                }
            }
        }
    }
}

/// Joining keeps every part: one part alone is itself, and two lists one behind the other are joined
/// as one, with the separator between them.
pub proof fn law_joining_keeps_every_part(a: Seq<Seq<char>>, b: Seq<Seq<char>>, sep: Seq<char>)
    requires
        a.len() > 0,
        b.len() > 0,
    ensures
        joined(a + b, sep) == joined(a, sep) + sep + joined(b, sep),
        b.len() == 1 ==> joined(b, sep) == b[0],
        forall|i: int| 0 <= i < b.len() ==> text::stands_in(joined(b, sep), #[trigger] b[i]),
    decreases b.len(),
{
    let all = a + b;
    assert(all.drop_last() =~= a + b.drop_last());
    assert(all.last() == b.last());
    if b.len() == 1 {
        assert(a + b.drop_last() =~= a);
        assert(joined(all, sep) =~= joined(a, sep) + sep + joined(b, sep));
        text::lemma_stands_between(seq![], b[0], seq![]);
        assert(seq![] + b[0] + seq![] =~= b[0]);
    } else {
        let front = b.drop_last();
        law_joining_keeps_every_part(a, front, sep);
        assert(joined(all, sep) =~= joined(a, sep) + sep + joined(b, sep));
        assert forall|i: int| 0 <= i < b.len() implies text::stands_in(
            joined(b, sep),
            #[trigger] b[i],
        ) by {
            let none: Seq<char> = seq![];
            if i < front.len() {
                assert(b[i] == front[i]);
                assert(joined(b, sep) =~= none + joined(front, sep) + (sep + b.last()));
                text::lemma_stands_deeper(
                    joined(b, sep),
                    none,
                    joined(front, sep),
                    sep + b.last(),
                    b[i],
                );
            } else {
                text::lemma_stands_between(joined(front, sep) + sep, b.last(), none);
                assert(joined(b, sep) =~= joined(front, sep) + sep + b.last() + none);
            }
        }
    }
}

proof fn lemma_joined_first(first: Seq<char>, rest: Seq<Seq<char>>, sep: Seq<char>)
    requires
        rest.len() > 0,
    ensures
        joined(seq![first] + rest, sep) == first + sep + joined(rest, sep),
{
    law_joining_keeps_every_part(seq![first], rest, sep);
}

proof fn lemma_parts_join(s: Seq<char>, c: char, from: int)
    requires
        0 <= from <= s.len(),
    ensures
        parts_from(s, c, from).len() > 0,
        joined(parts_from(s, c, from), seq![c]) == s.skip(from),
    decreases s.len() - from,
{
    scan::lemma_char_at(s, c, from);
    match scan::char_at(s, c, from) {
        None => {},
        Some(i) => {
            lemma_parts_join(s, c, i + 1);
            lemma_joined_first(s.subrange(from, i), parts_from(s, c, i + 1), seq![c]);
            assert(s.subrange(from, i) + seq![c] + s.skip(i + 1) =~= s.skip(from));
        },
    }
}

/// Splitting at a character loses nothing: the parts, joined by it, are the text, and none holds it.
pub proof fn law_parts_join_back(s: Seq<char>, c: char)
    ensures
        joined(parts(s, c), seq![c]) == s,
        forall|i: int| 0 <= i < parts(s, c).len() ==> !(#[trigger] parts(s, c)[i]).contains(c),
{
    lemma_parts_join(s, c, 0);
    assert(s.skip(0) =~= s);
    assert forall|i: int| 0 <= i < parts(s, c).len() implies !(#[trigger] parts(s, c)[i]).contains(
        c,
    ) by {
        lemma_parts_hold_no_separator(s, c, 0, i);
    }
}

/// A text is cut in two at the first place where the character stands, and nothing else is taken out.
pub proof fn law_cutting_loses_nothing(s: Seq<char>, c: char)
    ensures
        match cut(s, c) {
            Some(pair) => s == pair.0.push(c) + pair.1 && !pair.0.contains(c),
            None => !s.contains(c),
        },
{
    scan::lemma_char_at(s, c, 0);
    if let Some(pair) = cut(s, c) {
        assert(s =~= pair.0.push(c) + pair.1);
    }
}

/// Replacing puts the new words where the pattern stood first, leaves what stood before as it is, and
/// goes on behind; where the pattern does not stand nothing changes, nor where it replaces itself.
pub proof fn law_replacing_leaves_the_rest(s: Seq<char>, p: Seq<char>, with: Seq<char>)
    requires
        p.len() > 0,
    ensures
        match scan::first_at(s, p) {
            None => replaced(s, p, with) == s,
            Some(i) => replaced(s, p, with) == s.take(i) + with + replaced(
                s.skip(i + p.len()),
                p,
                with,
            ) && s.subrange(i, i + p.len()) == p,
        },
        replaced(s, p, p) == s,
{
    scan::lemma_find_from(s, p, 0);
    assert(s.skip(0) =~= s);
    match scan::find_from(s, p, 0) {
        None => {},
        Some(i) => {
            lemma_replaced_shift(s, p, with, i + p.len());
            assert(s.subrange(0, i) =~= s.take(i));
        },
    }
    lemma_replaced_self(s, p, 0);
}

proof fn lemma_replaced_self(s: Seq<char>, p: Seq<char>, from: int)
    requires
        p.len() > 0,
        0 <= from <= s.len(),
    ensures
        replaced_from(s, p, p, from) == s.skip(from),
    decreases s.len() - from,
{
    scan::lemma_find_from(s, p, from);
    match scan::find_from(s, p, from) {
        None => {},
        Some(i) => {
            lemma_replaced_self(s, p, i + p.len());
            assert(s.subrange(from, i) + p + s.skip(i + p.len()) =~= s.skip(from)) by {
                assert(s.subrange(i, i + p.len()) == p);
                assert(s.skip(from) =~= s.subrange(from, i) + s.subrange(i, i + p.len()) + s.skip(
                    i + p.len(),
                ));
            }
        },
    }
}

proof fn lemma_matches_shift(s: Seq<char>, p: Seq<char>, from: int, at: int)
    requires
        0 <= from <= at <= s.len(),
        p.len() > 0,
    ensures
        matches_from(s, p, at) == matches_from(s.skip(from), p, at - from),
    decreases s.len() + 1 - at,
{
    lemma_find_shift(s, p, from, at);
    scan::lemma_find_from(s, p, at);
    if let Some(i) = scan::find_from(s, p, at) {
        lemma_matches_shift(s, p, from, i + p.len());
    }
}

/// Matches are counted from the left and do not overlap: none where the pattern does not stand, and
/// otherwise one more than behind the first.
pub proof fn law_matches_are_counted_one_by_one(s: Seq<char>, p: Seq<char>)
    requires
        p.len() > 0,
    ensures
        match scan::first_at(s, p) {
            None => matches_from(s, p, 0) == 0,
            Some(i) => matches_from(s, p, 0) == 1 + matches_from(s.skip(i + p.len()), p, 0),
        },
{
    scan::lemma_find_from(s, p, 0);
    if let Some(i) = scan::first_at(s, p) {
        lemma_matches_shift(s, p, i + p.len(), i + p.len());
    }
}

proof fn lemma_lines_shift(s: Seq<char>, from: int, at: int)
    requires
        0 <= from <= at <= s.len(),
    ensures
        lines_from(s, at) == lines_from(s.skip(from), at - from),
    decreases s.len() - at,
{
    let rest = s.skip(from);
    if at < s.len() {
        lemma_find_shift(s, seq!['\n'], from, at);
        scan::lemma_char_at(s, '\n', at);
        match scan::char_at(s, '\n', at) {
            None => {
                assert(s.skip(at) =~= rest.skip(at - from));
            },
            Some(i) => {
                lemma_lines_shift(s, from, i + 1);
                assert(s.subrange(at, i) =~= rest.subrange(at - from, i - from));
            },
        }
    }
}

/// A line ends where the next one begins, with or without a carriage return before the line end:
/// neither is a part of the line, and what follows is split as it would be alone.
pub proof fn law_lines_follow_one_another(line: Seq<char>, rest: Seq<char>)
    requires
        !line.contains('\n'),
    ensures
        lines(line + seq!['\r', '\n'] + rest) == seq![line] + lines(rest),
        line.len() == 0 || line.last() != '\r' ==> lines(line + seq!['\n'] + rest) == seq![line]
            + lines(rest),
{
    let n = line.len() as int;
    let a = line + seq!['\r', '\n'] + rest;
    let b = line + seq!['\n'] + rest;
    assert forall|i: int| 0 <= i < n implies line[i] != '\n' by {
        assert(line.contains(line[i]));
    }
    scan::lemma_char_at(a, '\n', 0);
    scan::lemma_char_at(b, '\n', 0);
    assert(a[n] == '\r' && a[n + 1] == '\n');
    assert(b[n] == '\n');
    assert(scan::char_at(a, '\n', 0) == Some(n + 1));
    assert(scan::char_at(b, '\n', 0) == Some(n));
    assert(a.subrange(0, n + 1) =~= line.push('\r'));
    assert(line.push('\r').drop_last() =~= line);
    assert(b.subrange(0, n) =~= line);
    lemma_lines_shift(a, n + 2, n + 2);
    lemma_lines_shift(b, n + 1, n + 1);
    assert(a.skip(n + 2) =~= rest);
    assert(b.skip(n + 1) =~= rest);
}

} // verus!
