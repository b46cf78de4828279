//! Text as a sequence of characters: trimming, searching, splitting, joining and rendering.
//!
//! Everything the assistant shows or parses is built from these functions, so each of them says
//! over `Seq<char>` exactly what it returns.
use vstd::prelude::*;
use vstd::string::*;

verus! {

// ---------------------------------------------------------------------------------------------
// Characters
// ---------------------------------------------------------------------------------------------

/// The characters with the Unicode property `White_Space`.
pub open spec fn is_white(c: char) -> bool {
    let n = c as int;
    ||| 0x9 <= n <= 0xd
    ||| n == 0x20
    ||| n == 0x85
    ||| n == 0xa0
    ||| n == 0x1680
    ||| 0x2000 <= n <= 0x200a
    ||| n == 0x2028
    ||| n == 0x2029
    ||| n == 0x202f
    ||| n == 0x205f
    ||| n == 0x3000
}

/// Whether a character is white space.
pub fn is_whitespace(c: char) -> (r: bool)
    ensures
        r == is_white(c),
{
    let n: u32 = c as u32;
    (0x9 <= n && n <= 0xd) || n == 0x20 || n == 0x85 || n == 0xa0 || n == 0x1680 || (0x2000 <= n
        && n <= 0x200a) || n == 0x2028 || n == 0x2029 || n == 0x202f || n == 0x205f || n == 0x3000
}

/// A decimal digit.
pub open spec fn is_digit(c: char) -> bool {
    '0' <= c <= '9'
}

/// An ASCII letter or digit.
pub open spec fn is_ascii_alnum(c: char) -> bool {
    ||| is_digit(c)
    ||| 'a' <= c <= 'z'
    ||| 'A' <= c <= 'Z'
}

/// Whether a character is an ASCII letter or digit.
pub fn is_ascii_alphanumeric(c: char) -> (r: bool)
    ensures
        r == is_ascii_alnum(c),
{
    ('0' <= c && c <= '9') || ('a' <= c && c <= 'z') || ('A' <= c && c <= 'Z')
}

/// The ASCII lower case of a character; other characters stay as they are.
pub open spec fn lower_char(c: char) -> char {
    if 'A' <= c <= 'Z' {
        (c as u8 + 32) as char
    } else {
        c
    }
}

/// The ASCII lower case of one character.
pub fn lowercase_char(c: char) -> (r: char)
    ensures
        r == lower_char(c),
{
    if 'A' <= c && c <= 'Z' {
        let n: u8 = c as u8;
        (n + 32) as char
    } else {
        c
    }
}

// ---------------------------------------------------------------------------------------------
// Strings and vectors of characters
// ---------------------------------------------------------------------------------------------

/// `String::push` appends one character and changes nothing else.
pub assume_specification[ String::push ](string: &mut String, c: char)
    ensures
        final(string)@ == old(string)@.push(c),
;

/// The characters of a text, in order.
pub fn chars_of(text: &str) -> (r: Vec<char>)
    ensures
        r@ == text@,
{
    let mut out: Vec<char> = Vec::new();
    for c in it: text.chars()
        invariant
            out@ == text@.take(it.index() as int),
            it.seq() == text@,
    {
        out.push(c);
        assert(text@.take(it.index() + 1) =~= text@.take(it.index() as int).push(c));
    }
    assert(text@.take(text@.len() as int) =~= text@);
    out
}

/// The text made of `chars[from..to]`.
pub fn slice_text(chars: &[char], from: usize, to: usize) -> (r: String)
    requires
        from <= to <= chars.len(),
    ensures
        r@ == chars@.subrange(from as int, to as int),
{
    let mut out = String::new();
    let mut i: usize = from;
    while i < to
        invariant
            from <= i <= to <= chars.len(),
            out@ == chars@.subrange(from as int, i as int),
        decreases to - i,
    {
        out.push(chars[i]);
        assert(chars@.subrange(from as int, i + 1) =~= chars@.subrange(from as int, i as int).push(
            chars@[i as int],
        ));
        i += 1;
    }
    out
}

/// The text made of the given characters.
pub fn string_of(chars: &[char]) -> (r: String)
    ensures
        r@ == chars@,
{
    let out = slice_text(chars, 0, chars.len());
    assert(chars@.subrange(0, chars@.len() as int) =~= chars@);
    out
}

/// The characters from index `from` on.
pub fn tail_of(chars: &[char], from: usize) -> (r: Vec<char>)
    requires
        from <= chars.len(),
    ensures
        r@ == chars@.skip(from as int),
{
    let mut out: Vec<char> = Vec::new();
    let mut i: usize = from;
    while i < chars.len()
        invariant
            from <= i <= chars.len(),
            out@ == chars@.subrange(from as int, i as int),
        decreases chars.len() - i,
    {
        out.push(chars[i]);
        i += 1;
    }
    out
}

/// Whether two texts hold the same characters.
pub fn same(a: &str, b: &str) -> (r: bool)
    ensures
        r == (a@ == b@),
{
    a.to_owned() == b.to_owned()
}

/// Two texts one after the other.
pub fn cat(a: &str, b: &str) -> (r: String)
    ensures
        r@ == a@ + b@,
{
    let mut out = a.to_owned();
    out.append(b);
    out
}

/// Three texts one after the other.
pub fn cat3(a: &str, b: &str, c: &str) -> (r: String)
    ensures
        r@ == a@ + b@ + c@,
{
    let mut out = a.to_owned();
    out.append(b);
    out.append(c);
    out
}

/// Five texts one after the other.
pub fn cat5(a: &str, b: &str, c: &str, d: &str, e: &str) -> (r: String)
    ensures
        r@ == a@ + b@ + c@ + d@ + e@,
{
    let mut out = a.to_owned();
    out.append(b);
    out.append(c);
    out.append(d);
    out.append(e);
    out
}

/// `part` stands somewhere in `whole`.
pub open spec fn stands_in(whole: Seq<char>, part: Seq<char>) -> bool {
    exists|at: int|
        0 <= at && at + part.len() <= whole.len() && #[trigger] whole.subrange(
            at,
            at + part.len(),
        ) == part
}

/// What is put between two texts stands in the whole.
pub proof fn lemma_stands_between(before: Seq<char>, part: Seq<char>, after: Seq<char>)
    ensures
        stands_in(before + part + after, part),
{
    let whole = before + part + after;
    let at = before.len() as int;
    assert(whole.subrange(at, at + part.len()) =~= part);
}

/// What stands in one of two texts stands in the two run together.
pub broadcast proof fn lemma_stands_added(a: Seq<char>, b: Seq<char>, part: Seq<char>)
    requires
        stands_in(a, part) || stands_in(b, part),
    ensures
        #[trigger] stands_in(a + b, part),
{
    let n = part.len();
    if stands_in(a, part) {
        let at = choose|at: int|
            0 <= at && at + n <= a.len() && #[trigger] a.subrange(at, at + n) == part;
        assert((a + b).subrange(at, at + n) =~= a.subrange(at, at + n));
    } else {
        let at = choose|at: int|
            0 <= at && at + n <= b.len() && #[trigger] b.subrange(at, at + n) == part;
        assert((a + b).subrange(a.len() + at, a.len() + at + n) =~= b.subrange(at, at + n));
    }
}

/// A text stands in itself.
pub broadcast proof fn lemma_stands_itself(part: Seq<char>)
    ensures
        #[trigger] stands_in(part, part),
{
    let at = 0int;
    assert(part.subrange(at, at + part.len()) =~= part);
}

/// What stands in a piece stands where the piece does.
pub proof fn lemma_stands_inside(whole: Seq<char>, piece: Seq<char>, part: Seq<char>)
    requires
        stands_in(whole, piece),
        stands_in(piece, part),
    ensures
        stands_in(whole, part),
{
    let n = piece.len();
    let at = choose|at: int|
        0 <= at && at + n <= whole.len() && #[trigger] whole.subrange(at, at + n) == piece;
    assert(whole =~= whole.take(at) + piece + whole.skip(at + n));
    lemma_stands_added(whole.take(at), piece, part);
    lemma_stands_added(whole.take(at) + piece, whole.skip(at + n), part);
}

/// What stands in a text that is put together of others.
pub broadcast group group_stands {
    lemma_stands_added,
    lemma_stands_itself,
}

/// Each of some texts stands in all of them, run together.
pub proof fn lemma_stands_in_flat(pieces: Seq<Seq<char>>, i: int)
    requires
        0 <= i < pieces.len(),
    ensures
        stands_in(pieces.flatten(), pieces[i]),
{
    let front = pieces.take(i);
    let back = pieces.skip(i + 1);
    assert(pieces =~= front.push(pieces[i]) + back);
    vstd::seq_lib::lemma_flatten_concat(front.push(pieces[i]), back);
    front.lemma_flatten_push(pieces[i]);
    lemma_stands_between(front.flatten(), pieces[i], back.flatten());
}

/// What stands in a part stands in the whole.
pub proof fn lemma_stands_deeper(
    whole: Seq<char>,
    before: Seq<char>,
    middle: Seq<char>,
    after: Seq<char>,
    part: Seq<char>,
)
    requires
        whole == before + middle + after,
        stands_in(middle, part),
    ensures
        stands_in(whole, part),
{
    let at = choose|at: int|
        0 <= at && at + part.len() <= middle.len() && #[trigger] middle.subrange(
            at,
            at + part.len(),
        ) == part;
    let there = before.len() + at;
    assert(whole.subrange(there, there + part.len()) =~= middle.subrange(at, at + part.len()));
}

// ---------------------------------------------------------------------------------------------
// Views of collections
// ---------------------------------------------------------------------------------------------

/// The views of the items of a sequence.
pub open spec fn views<T: View>(items: Seq<T>) -> Seq<T::V> {
    Seq::new(items.len(), |i: int| items[i]@)
}

/// The view of an optional value.
pub open spec fn opt_view<T: View>(value: Option<T>) -> Option<T::V> {
    match value {
        Some(inner) => Some(inner@),
        None => None,
    }
}

/// The view of a result.
pub open spec fn res_view<T: View, E: View>(value: Result<T, E>) -> Result<T::V, E::V> {
    match value {
        Ok(inner) => Ok(inner@),
        Err(e) => Err(e@),
    }
}

/// The characters of an optional text.
pub open spec fn str_view(value: Option<&str>) -> Option<Seq<char>> {
    match value {
        Some(inner) => Some(inner@),
        None => None,
    }
}

pub broadcast proof fn lemma_views_push<T: View>(items: Seq<T>, item: T)
    ensures
        #[trigger] views(items.push(item)) == views(items).push(item@),
{
    assert(views(items.push(item)) =~= views(items).push(item@));
}

pub broadcast proof fn lemma_views_add<T: View>(a: Seq<T>, b: Seq<T>)
    ensures
        #[trigger] views(a + b) == views(a) + views(b),
{
    assert(views(a + b) =~= views(a) + views(b));
}

pub broadcast proof fn lemma_views_take<T: View>(items: Seq<T>, n: int)
    requires
        0 <= n <= items.len(),
    ensures
        #[trigger] views(items.take(n)) == views(items).take(n),
{
    assert(views(items.take(n)) =~= views(items).take(n));
}

pub broadcast proof fn lemma_views_skip<T: View>(items: Seq<T>, n: int)
    requires
        0 <= n <= items.len(),
    ensures
        #[trigger] views(items.skip(n)) == views(items).skip(n),
{
    assert(views(items.skip(n)) =~= views(items).skip(n));
}

pub broadcast group group_views {
    lemma_views_push,
    lemma_views_add,
    lemma_views_take,
    lemma_views_skip,
}

/// Whether a list holds a text.
pub fn holds(list: &[String], item: &str) -> (r: bool)
    ensures
        r == views(list@).contains(item@),
{
    let mut i: usize = 0;
    while i < list.len()
        invariant
            i <= list.len(),
            forall|j: int| 0 <= j < i ==> views(list@)[j] != item@,
        decreases list.len() - i,
    {
        if same(list[i].as_str(), item) {
            assert(views(list@)[i as int] == item@);
            return true;
        }
        i += 1;
    }
    false
}

/// A copy of an optional text.
pub fn copy_opt(text: &Option<String>) -> (r: Option<String>)
    ensures
        opt_view(r) == opt_view(*text),
        r == *text,
{
    match text {
        Some(inner) => Some(inner.clone()),
        None => None,
    }
}

/// Space, tab and line ends are white space; nothing that can be seen on an ASCII keyboard is, and no
/// letter is changed by lower case but a capital, which becomes its small letter.
pub proof fn law_white_space_cannot_be_seen(c: char)
    ensures
        is_white(' ') && is_white('\t') && is_white('\n') && is_white('\r'),
        '!' <= c <= '~' ==> !is_white(c),
        is_digit(c) ==> is_ascii_alnum(c) && !is_white(c),
        is_ascii_alnum(c) ==> lower_char(c) == c || 'A' <= c <= 'Z',
        lower_char(lower_char(c)) == lower_char(c),
{
}

} // verus!
