//! Trimming, searching, splitting and replacing.
use crate::text;
use crate::text::{chars_of, is_whitespace, lowercase_char, slice_text, string_of};
use vstd::prelude::*;
use vstd::string::*;

verus! {

// ---------------------------------------------------------------------------------------------
// Trimming
// ---------------------------------------------------------------------------------------------

/// The characters that a trim removes.
#[derive(Debug)]
pub enum Class<'a> {
    /// White space.
    White,
    /// The characters of a list.
    Of(&'a [char]),
}

/// White space, as a predicate.
pub open spec fn white() -> spec_fn(char) -> bool {
    |c: char| text::is_white(c)
}

/// The members of a list, as a predicate.
pub open spec fn one_of(list: Seq<char>) -> spec_fn(char) -> bool {
    |c: char| list.contains(c)
}

impl<'a> Class<'a> {
    /// The predicate that the class stands for.
    pub open spec fn holds(&self) -> spec_fn(char) -> bool {
        match self {
            Class::White => white(),
            Class::Of(list) => one_of(list@),
        }
    }

    /// Whether a character belongs to the class.
    pub fn has(&self, c: char) -> (r: bool)
        ensures
            r == (self.holds())(c),
    {
        match self {
            Class::White => is_whitespace(c),
            Class::Of(list) => {
                let mut i: usize = 0;
                while i < list.len()
                    invariant
                        i <= list.len(),
                        self.holds() == one_of(list@),
                        forall|j: int| 0 <= j < i ==> list@[j] != c,
                    decreases list.len() - i,
                {
                    if list[i] == c {
                        assert(list@[i as int] == c);
                        return true;
                    }
                    i += 1;
                }
                false
            },
        }
    }
}

/// How many characters at the front satisfy `p` before the first that does not.
pub open spec fn span(s: Seq<char>, p: spec_fn(char) -> bool) -> nat
    decreases s.len(),
{
    if s.len() > 0 && p(s[0]) {
        1 + span(s.skip(1), p)
    } else {
        0
    }
}

/// How many characters at the back satisfy `p` after the last that does not.
pub open spec fn span_back(s: Seq<char>, p: spec_fn(char) -> bool) -> nat
    decreases s.len(),
{
    if s.len() > 0 && p(s.last()) {
        1 + span_back(s.drop_last(), p)
    } else {
        0
    }
}

/// `s` without the characters at its front that satisfy `p`.
pub open spec fn trim_front(s: Seq<char>, p: spec_fn(char) -> bool) -> Seq<char> {
    s.skip(span(s, p) as int)
}

/// `s` without the characters at its back that satisfy `p`.
pub open spec fn trim_back(s: Seq<char>, p: spec_fn(char) -> bool) -> Seq<char> {
    s.take(s.len() - span_back(s, p))
}

/// `s` without the characters at either end that satisfy `p`.
pub open spec fn trim_both(s: Seq<char>, p: spec_fn(char) -> bool) -> Seq<char> {
    trim_back(trim_front(s, p), p)
}

/// `s` without the white space around it.
pub open spec fn trimmed(s: Seq<char>) -> Seq<char> {
    trim_both(s, white())
}

/// `s` is nothing but white space.
pub open spec fn blank(s: Seq<char>) -> bool {
    trimmed(s).len() == 0
}

pub proof fn lemma_span_bound(s: Seq<char>, p: spec_fn(char) -> bool)
    ensures
        span(s, p) <= s.len(),
        forall|i: int| 0 <= i < span(s, p) ==> p(#[trigger] s[i]),
        span(s, p) < s.len() ==> !p(s[span(s, p) as int]),
    decreases s.len(),
{
    if s.len() > 0 && p(s[0]) {
        lemma_span_bound(s.skip(1), p);
        assert forall|i: int| 0 <= i < span(s, p) implies p(#[trigger] s[i]) by {
            if i > 0 {
                assert(s.skip(1)[i - 1] == s[i]);
            }
        }
        if span(s, p) < s.len() {
            assert(s.skip(1)[span(s.skip(1), p) as int] == s[span(s, p) as int]);
        }
    }
}

pub proof fn lemma_span_back_bound(s: Seq<char>, p: spec_fn(char) -> bool)
    ensures
        span_back(s, p) <= s.len(),
        forall|i: int| s.len() - span_back(s, p) <= i < s.len() ==> p(#[trigger] s[i]),
        span_back(s, p) < s.len() ==> !p(s[s.len() - span_back(s, p) - 1]),
    decreases s.len(),
{
    if s.len() > 0 && p(s.last()) {
        lemma_span_back_bound(s.drop_last(), p);
        assert forall|i: int| s.len() - span_back(s, p) <= i < s.len() implies p(
            #[trigger] s[i],
        ) by {
            if i < s.len() - 1 {
                assert(s.drop_last()[i] == s[i]);
            }
        }
    }
}

/// The span is the only number with these properties.
pub proof fn lemma_span_unique(s: Seq<char>, p: spec_fn(char) -> bool, n: nat)
    requires
        n <= s.len(),
        forall|i: int| 0 <= i < n ==> p(#[trigger] s[i]),
        n < s.len() ==> !p(s[n as int]),
    ensures
        span(s, p) == n,
{
    lemma_span_bound(s, p);
    let m = span(s, p);
    if m < n {
        assert(p(s[m as int]));
    } else if n < m {
        assert(p(s[n as int]));
    }
}

/// The span at the back is the only number with these properties.
pub proof fn lemma_span_back_unique(s: Seq<char>, p: spec_fn(char) -> bool, n: nat)
    requires
        n <= s.len(),
        forall|i: int| s.len() - n <= i < s.len() ==> p(#[trigger] s[i]),
        n < s.len() ==> !p(s[s.len() - n - 1]),
    ensures
        span_back(s, p) == n,
{
    lemma_span_back_bound(s, p);
    let m = span_back(s, p);
    if m < n {
        assert(p(s[s.len() - m - 1]));
    } else if n < m {
        assert(p(s[s.len() - n - 1]));
    }
}

/// A text that neither begins nor ends with white space stays as it is.
pub proof fn lemma_trimmed_bare(s: Seq<char>)
    requires
        s.len() > 0,
        !text::is_white(s[0]),
        !text::is_white(s.last()),
    ensures
        trimmed(s) == s,
{
    assert(span(s, white()) == 0);
    assert(s.skip(0) =~= s);
    assert(span_back(s, white()) == 0);
    assert(s.take(s.len() as int) =~= s);
}

/// The index of the first character outside the class.
pub fn front_index(chars: &[char], class: &Class) -> (r: usize)
    ensures
        r == span(chars@, class.holds()),
        r <= chars.len(),
{
    let mut i: usize = 0;
    while i < chars.len() && class.has(chars[i])
        invariant
            i <= chars.len(),
            forall|j: int| 0 <= j < i ==> (class.holds())(#[trigger] chars@[j]),
        decreases chars.len() - i,
    {
        i += 1;
    }
    proof {
        lemma_span_unique(chars@, class.holds(), i as nat);
    }
    i
}

/// The index behind the last character outside the class.
pub fn back_index(chars: &[char], class: &Class) -> (r: usize)
    ensures
        r == chars@.len() - span_back(chars@, class.holds()),
        r <= chars.len(),
{
    let mut i: usize = chars.len();
    while i > 0 && class.has(chars[i - 1])
        invariant
            i <= chars.len(),
            forall|j: int| i <= j < chars.len() ==> (class.holds())(#[trigger] chars@[j]),
        decreases i,
    {
        i -= 1;
    }
    proof {
        lemma_span_back_unique(chars@, class.holds(), (chars@.len() - i) as nat);
    }
    i
}

/// The text without the characters of the class at its front.
pub fn trim_start(text: &str, class: &Class) -> (r: String)
    ensures
        r@ == trim_front(text@, class.holds()),
{
    let chars = chars_of(text);
    let from = front_index(&chars, class);
    let out = slice_text(&chars, from, chars.len());
    assert(out@ =~= trim_front(text@, class.holds()));
    out
}

/// The text without the characters of the class at its back.
pub fn trim_end(text: &str, class: &Class) -> (r: String)
    ensures
        r@ == trim_back(text@, class.holds()),
{
    let chars = chars_of(text);
    let to = back_index(&chars, class);
    let out = slice_text(&chars, 0, to);
    assert(out@ =~= trim_back(text@, class.holds()));
    out
}

/// The text without the characters of the class at either end.
pub fn trim_ends(text: &str, class: &Class) -> (r: String)
    ensures
        r@ == trim_both(text@, class.holds()),
{
    let front = trim_start(text, class);
    trim_end(front.as_str(), class)
}

/// The text without the white space around it.
pub fn trim(text: &str) -> (r: String)
    ensures
        r@ == trimmed(text@),
{
    trim_ends(text, &Class::White)
}

/// Whether the text is nothing but white space.
pub fn is_blank(text: &str) -> (r: bool)
    ensures
        r == blank(text@),
{
    let inner = trim(text);
    inner.as_str().is_empty()
}

/// Trimming once is enough.
pub proof fn law_trim_idempotent(s: Seq<char>)
    ensures
        trimmed(trimmed(s)) == trimmed(s),
{
    let p = white();
    let a = trim_front(s, p);
    lemma_span_bound(s, p);
    lemma_span_back_bound(a, p);
    let t = trim_back(a, p);
    if t.len() > 0 {
        assert(t[0] == a[0]);
        assert(a[0] == s[span(s, p) as int]);
        assert(t.last() == a[a.len() - span_back(a, p) - 1]);
        lemma_span_unique(t, p, 0);
        assert(trim_front(t, p) =~= t);
        lemma_span_back_unique(t, p, 0);
        assert(trim_back(t, p) =~= t);
    } else {
        assert(trim_front(t, p) =~= t);
        assert(trim_back(t, p) =~= t);
    }
}

// ---------------------------------------------------------------------------------------------
// Case
// ---------------------------------------------------------------------------------------------

/// The ASCII lower case of a text.
pub open spec fn lower(s: Seq<char>) -> Seq<char> {
    Seq::new(s.len(), |i: int| text::lower_char(s[i]))
}

/// The ASCII lower case of some characters.
pub fn lower_chars(chars: &[char]) -> (r: Vec<char>)
    ensures
        r@ == lower(chars@),
{
    let mut out: Vec<char> = Vec::new();
    let mut i: usize = 0;
    while i < chars.len()
        invariant
            i <= chars.len(),
            out@ =~= lower(chars@).take(i as int),
        decreases chars.len() - i,
    {
        out.push(lowercase_char(chars[i]));
        i += 1;
    }
    assert(lower(chars@).take(i as int) =~= lower(chars@));
    out
}

/// The ASCII lower case of a text.
pub fn to_lower(text: &str) -> (r: String)
    ensures
        r@ == lower(text@),
{
    let chars = chars_of(text);
    let low = lower_chars(&chars);
    string_of(&low)
}

/// Whether two texts are the same but for ASCII case.
pub fn same_ignoring_case(a: &str, b: &str) -> (r: bool)
    ensures
        r == (lower(a@) == lower(b@)),
{
    to_lower(a) == to_lower(b)
}

// ---------------------------------------------------------------------------------------------
// Searching
// ---------------------------------------------------------------------------------------------

/// `p` stands in `s` at index `i`.
pub open spec fn occurs_at<T>(s: Seq<T>, p: Seq<T>, i: int) -> bool {
    &&& 0 <= i
    &&& i + p.len() <= s.len()
    &&& s.subrange(i, i + p.len()) == p
}

/// `p` is the front of `s`.
pub open spec fn has_prefix(s: Seq<char>, p: Seq<char>) -> bool {
    occurs_at(s, p, 0)
}

/// The first index, from `from` on, at which `p` stands in `s`.
pub open spec fn find_from<T>(s: Seq<T>, p: Seq<T>, from: int) -> Option<int>
    decreases s.len() + 1 - from,
{
    if from < 0 || from + p.len() > s.len() {
        None
    } else if occurs_at(s, p, from) {
        Some(from)
    } else {
        find_from(s, p, from + 1)
    }
}

/// The first index at which `p` stands in `s`.
pub open spec fn first_at<T>(s: Seq<T>, p: Seq<T>) -> Option<int> {
    find_from(s, p, 0)
}

/// `p` stands somewhere in `s`.
pub open spec fn contains_text(s: Seq<char>, p: Seq<char>) -> bool {
    first_at(s, p) is Some
}

pub proof fn lemma_find_from<T>(s: Seq<T>, p: Seq<T>, from: int)
    requires
        0 <= from,
    ensures
        match find_from(s, p, from) {
            Some(i) => from <= i && occurs_at(s, p, i) && forall|j: int|
                from <= j < i ==> !occurs_at(s, p, j),
            None => forall|j: int| from <= j ==> !occurs_at(s, p, j),
        },
    decreases s.len() + 1 - from,
{
    if from + p.len() > s.len() {
    } else if occurs_at(s, p, from) {
    } else {
        lemma_find_from(s, p, from + 1);
        assert forall|j: int| from <= j && find_from(s, p, from) is None implies !occurs_at(
            s,
            p,
            j,
        ) by {
            if j > from {
            }
        }
    }
}

/// Whether the pattern stands at index `at`.
pub fn stands_at(chars: &[char], pattern: &[char], at: usize) -> (r: bool)
    ensures
        r == occurs_at(chars@, pattern@, at as int),
{
    if pattern.len() > chars.len() || at > chars.len() - pattern.len() {
        return false;
    }
    let mut k: usize = 0;
    while k < pattern.len()
        invariant
            k <= pattern.len(),
            at + pattern.len() <= chars.len(),
            forall|j: int| 0 <= j < k ==> chars@[at + j] == #[trigger] pattern@[j],
        decreases pattern.len() - k,
    {
        if chars[at + k] != pattern[k] {
            assert(chars@.subrange(at as int, at + pattern@.len())[k as int] != pattern@[k as int]);
            return false;
        }
        k += 1;
    }
    assert(chars@.subrange(at as int, at + pattern@.len()) =~= pattern@);
    true
}

/// The first index, from `from` on, at which the pattern stands.
pub fn find_chars(chars: &[char], pattern: &[char], from: usize) -> (r: Option<usize>)
    ensures
        match r {
            Some(i) => find_from(chars@, pattern@, from as int) == Some(i as int) && from <= i && i
                + pattern.len() <= chars.len(),
            None => find_from(chars@, pattern@, from as int) is None,
        },
{
    let mut i: usize = from;
    while pattern.len() <= chars.len() && i <= chars.len() - pattern.len()
        invariant
            from <= i,
            find_from(chars@, pattern@, from as int) == find_from(chars@, pattern@, i as int),
        decreases chars.len() + 1 - i,
    {
        if stands_at(chars, pattern, i) {
            return Some(i);
        }
        if i == chars.len() - pattern.len() {
            assert(find_from(chars@, pattern@, i + 1) is None);
            return None;
        }
        i += 1;
    }
    None
}

/// Whether the text begins with the pattern.
pub fn starts_with(text: &str, pattern: &str) -> (r: bool)
    ensures
        r == has_prefix(text@, pattern@),
{
    let chars = chars_of(text);
    let wanted = chars_of(pattern);
    stands_at(&chars, &wanted, 0)
}

/// The rest of the text behind the pattern, where the text begins with it.
pub fn strip_prefix(text: &str, pattern: &str) -> (r: Option<String>)
    ensures
        r is Some <==> has_prefix(text@, pattern@),
        r matches Some(rest) ==> rest@ == text@.skip(pattern@.len() as int) && text@ == pattern@
            + rest@,
{
    let chars = chars_of(text);
    let wanted = chars_of(pattern);
    if stands_at(&chars, &wanted, 0) {
        let rest = slice_text(&chars, wanted.len(), chars.len());
        assert(rest@ =~= text@.skip(pattern@.len() as int));
        assert(text@ =~= text@.subrange(0, pattern@.len() as int) + rest@);
        Some(rest)
    } else {
        None
    }
}

/// Whether the pattern stands somewhere in the text.
pub fn contains(text: &str, pattern: &str) -> (r: bool)
    ensures
        r == contains_text(text@, pattern@),
{
    let chars = chars_of(text);
    let wanted = chars_of(pattern);
    find_chars(&chars, &wanted, 0).is_some()
}

/// The index of the first character equal to `c`, from `from` on.
pub open spec fn char_at(s: Seq<char>, c: char, from: int) -> Option<int> {
    find_from(s, seq![c], from)
}

pub proof fn lemma_char_at(s: Seq<char>, c: char, from: int)
    requires
        0 <= from,
    ensures
        match char_at(s, c, from) {
            Some(i) => from <= i < s.len() && s[i] == c && forall|j: int|
                from <= j < i ==> s[j] != c,
            None => forall|j: int| from <= j < s.len() ==> s[j] != c,
        },
{
    lemma_find_from(s, seq![c], from);
    assert forall|j: int| 0 <= j < s.len() implies (occurs_at(s, seq![c], j) <==> s[j] == c) by {
        assert(s.subrange(j, j + 1) =~= seq![s[j]]);
        if s[j] != c {
            assert(s.subrange(j, j + 1)[0] != seq![c][0]);
        }
    }
    match char_at(s, c, from) {
        Some(i) => {
            assert forall|j: int| from <= j < i implies s[j] != c by {
                assert(!occurs_at(s, seq![c], j));
            }
        },
        None => {
            assert forall|j: int| from <= j < s.len() implies s[j] != c by {
                assert(!occurs_at(s, seq![c], j));
            }
        },
    }
}

/// The index of the first character equal to `c`, from `from` on.
pub fn find_char(chars: &[char], c: char, from: usize) -> (r: Option<usize>)
    ensures
        match r {
            Some(i) => char_at(chars@, c, from as int) == Some(i as int) && from <= i
                < chars.len(),
            None => char_at(chars@, c, from as int) is None,
        },
{
    let wanted: [char; 1] = [c];
    assert(wanted@ =~= seq![c]);
    find_chars(chars, &wanted, from)
}

/// Trimming takes white space off the two ends and nothing else: what is left stands in the text as
/// it is, only white space stands around it, and it neither begins nor ends with any.
pub proof fn law_trimming_takes_only_white_space(s: Seq<char>)
    ensures
        exists|n: int|
            0 <= n && n + trimmed(s).len() <= s.len() && #[trigger] s.subrange(
                n,
                n + trimmed(s).len(),
            ) == trimmed(s) && (forall|i: int|
                0 <= i < s.len() && !(n <= i < n + trimmed(s).len()) ==> text::is_white(
                    #[trigger] s[i],
                )),
        trimmed(s).len() > 0 ==> !text::is_white(trimmed(s)[0]) && !text::is_white(
            trimmed(s).last(),
        ),
        blank(s) <==> (forall|i: int| 0 <= i < s.len() ==> text::is_white(#[trigger] s[i])),
{
    let n = span(s, white()) as int;
    let t = trim_front(s, white());
    let r = trimmed(s);
    lemma_span_bound(s, white());
    lemma_span_back_bound(t, white());
    assert(r =~= s.subrange(n, n + r.len()));
    assert forall|i: int| 0 <= i < s.len() && !(n <= i < n + r.len()) implies text::is_white(
        #[trigger] s[i],
    ) by {
        if i >= n {
            assert(s[i] == t[i - n]);
        } else {
            assert(white()(s[i]));
        }
    }
    if r.len() > 0 {
        assert(r[0] == s[n]);
        assert(r.last() == t[t.len() - span_back(t, white()) - 1]);
        assert(s[n + 0] == r[0]);
    }
}

/// Taking characters off the end, or off the front, stops at the first that does not belong.
pub proof fn law_trimming_stops(s: Seq<char>, p: spec_fn(char) -> bool)
    ensures
        trim_back(s, p).is_prefix_of(s),
        trim_back(s, p).len() > 0 ==> !p(trim_back(s, p).last()),
        forall|i: int| trim_back(s, p).len() <= i < s.len() ==> p(#[trigger] s[i]),
        trim_front(s, p).is_suffix_of(s),
        trim_front(s, p).len() > 0 ==> !p(trim_front(s, p)[0]),
        forall|i: int| 0 <= i < s.len() - trim_front(s, p).len() ==> p(#[trigger] s[i]),
{
    lemma_span_bound(s, p);
    lemma_span_back_bound(s, p);
}

/// Lower case keeps the number of characters, touches ASCII capitals only, and changes nothing the
/// second time.
pub proof fn law_lower_case(s: Seq<char>, i: int)
    requires
        0 <= i < s.len(),
    ensures
        lower(s).len() == s.len(),
        !('A' <= s[i] <= 'Z') ==> lower(s)[i] == s[i],
        'A' <= s[i] <= 'Z' ==> 'a' <= lower(s)[i] <= 'z' && lower(s)[i] as int - 'a' as int
            == s[i] as int - 'A' as int,
        lower(lower(s)) == lower(s),
{
}

pub proof fn lemma_trimmed_stands(s: Seq<char>)
    ensures
        text::stands_in(s, trimmed(s)),
{
    law_trimming_takes_only_white_space(s);
    let r = trimmed(s);
    let n = choose|n: int|
        0 <= n && n + r.len() <= s.len() && #[trigger] s.subrange(n, n + r.len()) == r && (forall|
            i: int,
        |
            0 <= i < s.len() && !(n <= i < n + r.len()) ==> text::is_white(#[trigger] s[i]));
    assert(s.subrange(n, n + r.len()) == r);
}

} // verus!
