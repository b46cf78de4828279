//! Replacing a piece of text in a file that must match exactly once, whatever the line endings.
use crate::number;
use crate::number::count;
use crate::scan;
use crate::scan::{contains, find_chars};
use crate::split;
use crate::split::{count_matches, replace_all};
use crate::text;
use crate::text::{cat3, chars_of, slice_text};
use vstd::prelude::*;
use vstd::string::*;

verus! {

/// A text with every `\r\n` written as `\n`.
pub open spec fn unix(s: Seq<char>) -> Seq<char> {
    split::replaced(s, "\r\n"@, "\n"@)
}

/// A text with every `\n` written as `\r\n`.
pub open spec fn windows(s: Seq<char>) -> Seq<char> {
    split::replaced(s, "\n"@, "\r\n"@)
}

/// A text is written with `\r\n`.
pub open spec fn uses_crlf(s: Seq<char>) -> bool {
    scan::contains_text(s, "\r\n"@)
}

/// Why a file was not patched. `T` is text: `String` in a value, `Seq<char>` in its model.
#[derive(Debug)]
pub enum PatchError<T> {
    NotFound { path: T },
    Ambiguous { path: T, occurrences: usize },
}

impl View for PatchError<String> {
    type V = PatchError<Seq<char>>;

    open spec fn view(&self) -> PatchError<Seq<char>> {
        match self {
            PatchError::NotFound { path } => PatchError::NotFound { path: path@ },
            PatchError::Ambiguous { path, occurrences } => PatchError::Ambiguous {
                path: path@,
                occurrences: *occurrences,
            },
        }
    }
}

impl PatchError<Seq<char>> {
    /// What the model reads.
    pub open spec fn words(self) -> Seq<char> {
        match self {
            PatchError::NotFound { path } => "old_text was not found in "@ + path
                + "; read the file again and copy the text exactly"@,
            PatchError::Ambiguous { path, occurrences } => "old_text appears "@ + number::decimal(
                occurrences as nat,
            ) + " times in "@ + path
                + "; include more surrounding context so it matches exactly once"@,
        }
    }
}

impl PatchError<String> {
    /// What the model reads.
    pub fn message(&self) -> (r: String)
        ensures
            r@ == self@.words(),
    {
        match self {
            PatchError::NotFound { path } => cat3(
                "old_text was not found in ",
                path.as_str(),
                "; read the file again and copy the text exactly",
            ),
            PatchError::Ambiguous { path, occurrences } => {
                let digits = count(*occurrences);
                let mut out = cat3("old_text appears ", digits.as_str(), " times in ");
                out.append(path.as_str());
                out.append("; include more surrounding context so it matches exactly once");
                out
            },
        }
    }
}

/// `\r\n` stands at index `at`.
pub open spec fn crlf_at(s: Seq<char>, at: int) -> bool {
    0 <= at && at + 1 < s.len() && s[at] == '\r' && s[at + 1] == '\n'
}

/// Where in `s` character `k` of `unix(s)` comes from; a `\r\n` is one character there.
pub open spec fn origin(s: Seq<char>, k: nat) -> int
    decreases k,
{
    if k == 0 {
        0
    } else {
        let before = origin(s, (k - 1) as nat);
        if crlf_at(s, before) {
            before + 2
        } else {
            before + 1
        }
    }
}

/// A text as it is written to a file: with the line endings that the file uses.
pub open spec fn styled(text: Seq<char>, current: Seq<char>) -> Seq<char> {
    if uses_crlf(current) {
        windows(unix(text))
    } else {
        unix(text)
    }
}

/// The new content of a file: the one stretch that reads as the old text is replaced, and nothing
/// else.
pub open spec fn patched(
    path: Seq<char>,
    current: Seq<char>,
    old_text: Seq<char>,
    new_text: Seq<char>,
) -> Result<Seq<char>, PatchError<Seq<char>>> {
    let wanted = unix(old_text);
    let times = split::matches_from(unix(current), wanted, 0);
    if times == 0 {
        Err(PatchError::NotFound { path })
    } else if times > 1 {
        Err(PatchError::Ambiguous { path, occurrences: times as usize })
    } else {
        let first = scan::first_at(unix(current), wanted)->0 as nat;
        let from = origin(current, first);
        let to = origin(current, first + wanted.len());
        Ok(current.take(from) + styled(new_text, current) + current.skip(to))
    }
}

/// One step of reading line endings as `\n`.
proof fn lemma_unix_step(s: Seq<char>, from: int)
    requires
        0 <= from < s.len(),
    ensures
        crlf_at(s, from) ==> split::replaced_from(s, "\r\n"@, "\n"@, from) == seq!['\n']
            + split::replaced_from(s, "\r\n"@, "\n"@, from + 2),
        !crlf_at(s, from) ==> split::replaced_from(s, "\r\n"@, "\n"@, from) == seq![s[from]]
            + split::replaced_from(s, "\r\n"@, "\n"@, from + 1),
{
    reveal_strlit("\n");
    reveal_strlit("\r\n");
    let p = "\r\n"@;
    let q = "\n"@;
    assert(p =~= seq!['\r', '\n']);
    assert(q =~= seq!['\n']);
    if crlf_at(s, from) {
        assert(s.subrange(from, from + 2) =~= p);
        assert(scan::occurs_at(s, p, from));
        assert(scan::find_from(s, p, from) == Some(from));
        assert(s.subrange(from, from) =~= seq![]);
        assert(seq![] + q =~= q);
    } else {
        assert(!scan::occurs_at(s, p, from)) by {
            if scan::occurs_at(s, p, from) {
                assert(s.subrange(from, from + 2)[0] == p[0]);
                assert(s.subrange(from, from + 2)[1] == p[1]);
            }
        }
        scan::lemma_find_from(s, p, from);
        scan::lemma_find_from(s, p, from + 1);
        match scan::find_from(s, p, from + 1) {
            None => {
                assert(scan::find_from(s, p, from) is None);
                assert(s.skip(from) =~= seq![s[from]] + s.skip(from + 1));
            },
            Some(i) => {
                assert(scan::find_from(s, p, from) == Some(i));
                let rest = split::replaced_from(s, p, q, i + 2);
                assert(s.subrange(from, i) =~= seq![s[from]] + s.subrange(from + 1, i));
                assert(s.subrange(from, i) + q + rest =~= seq![s[from]] + (s.subrange(from + 1, i)
                    + q + rest));
            },
        }
    }
}

/// At the end there is nothing left to read.
proof fn lemma_unix_end(s: Seq<char>)
    ensures
        split::replaced_from(s, "\r\n"@, "\n"@, s.len() as int) == Seq::<char>::empty(),
{
    reveal_strlit("\r\n");
    scan::lemma_find_from(s, "\r\n"@, s.len() as int);
    assert(s.skip(s.len() as int) =~= seq![]);
}

/// Reading from the place that a character comes from gives that character and those behind it.
proof fn lemma_origin(s: Seq<char>, k: nat)
    requires
        k <= unix(s).len(),
    ensures
        0 <= origin(s, k) <= s.len(),
        split::replaced_from(s, "\r\n"@, "\n"@, origin(s, k)) == unix(s).skip(k as int),
        k < unix(s).len() ==> origin(s, k) < s.len(),
    decreases k,
{
    if k == 0 {
        assert(unix(s).skip(0) =~= unix(s));
    } else {
        lemma_origin(s, (k - 1) as nat);
        let before = origin(s, (k - 1) as nat);
        lemma_unix_step(s, before);
        assert(unix(s).skip(k - 1).skip(1) =~= unix(s).skip(k as int));
        let rest = split::replaced_from(s, "\r\n"@, "\n"@, origin(s, k));
        assert(split::replaced_from(s, "\r\n"@, "\n"@, before).skip(1) =~= rest);
    }
    if origin(s, k) == s.len() {
        lemma_unix_end(s);
        assert(unix(s).skip(k as int).len() == 0);
    }
}

/// The places that characters come from stand in order.
proof fn lemma_origin_grows(s: Seq<char>, j: nat, k: nat)
    requires
        j <= k,
    ensures
        origin(s, j) <= origin(s, k),
        j < k ==> origin(s, j) < origin(s, k),
    decreases k,
{
    if j < k {
        lemma_origin_grows(s, j, (k - 1) as nat);
    }
}

/// A stretch between the places that two characters come from reads as what stands between them.
proof fn lemma_stretch(s: Seq<char>, i: nat, n: nat, k: nat)
    requires
        i <= k <= n <= unix(s).len(),
    ensures
        ({
            let from = origin(s, i);
            let part = s.subrange(from, origin(s, n));
            split::replaced_from(part, "\r\n"@, "\n"@, origin(s, k) - from) == unix(s).subrange(
                k as int,
                n as int,
            )
        }),
    decreases n - k,
{
    let from = origin(s, i);
    let to = origin(s, n);
    let part = s.subrange(from, to);
    lemma_origin(s, i);
    lemma_origin(s, k);
    lemma_origin(s, n);
    lemma_origin_grows(s, i, k);
    lemma_origin_grows(s, k, n);
    let at = origin(s, k) - from;
    if k == n {
        lemma_unix_end(part);
        assert(unix(s).subrange(k as int, n as int) =~= seq![]);
    } else {
        lemma_stretch(s, i, n, k + 1);
        lemma_origin_grows(s, k + 1, n);
        lemma_unix_step(s, origin(s, k));
        lemma_unix_step(part, at);
        assert(crlf_at(s, origin(s, k)) <==> crlf_at(part, at));
        assert(unix(s).skip(k as int)[0] == unix(s)[k as int]);
        assert(unix(s).subrange(k as int, n as int) =~= seq![unix(s)[k as int]] + unix(
            s,
        ).subrange((k + 1) as int, n as int));
    }
}

/// The index in `chars` that a character of the text with plain line endings comes from.
fn place_of(chars: &[char], k: usize) -> (r: usize)
    requires
        k <= unix(chars@).len(),
    ensures
        r == origin(chars@, k as nat),
        r <= chars.len(),
{
    let mut at: usize = 0;
    let mut done: usize = 0;
    while done < k
        invariant
            done <= k <= unix(chars@).len(),
            at == origin(chars@, done as nat),
            at <= chars.len(),
        decreases k - done,
    {
        proof {
            lemma_origin(chars@, done as nat);
            lemma_origin(chars@, (done + 1) as nat);
        }
        if chars.len() - at >= 2 && chars[at] == '\r' && chars[at + 1] == '\n' {
            at += 2;
        } else {
            at += 1;
        }
        done += 1;
    }
    at
}

proof fn lemma_unix_not_empty(s: Seq<char>)
    requires
        s.len() > 0,
    ensures
        unix(s).len() > 0,
{
    reveal_strlit("\r\n");
    reveal_strlit("\n");
    scan::lemma_find_from(s, "\r\n"@, 0);
}

/// Replace `old_text` by `new_text` in a file. Line endings are compared as `\n`, the new text is
/// written in the file's own style, and nothing outside the match changes.
pub fn apply_patch(path: &str, current: &str, old_text: &str, new_text: &str) -> (r: Result<
    String,
    PatchError<String>,
>)
    requires
        old_text@.len() > 0,
    ensures
        match r {
            Ok(content) => patched(path@, current@, old_text@, new_text@) == Ok::<
                Seq<char>,
                PatchError<Seq<char>>,
            >(content@),
            Err(e) => patched(path@, current@, old_text@, new_text@) == Err::<
                Seq<char>,
                PatchError<Seq<char>>,
            >(e@),
        },
{
    proof {
        reveal_strlit("\r\n");
        reveal_strlit("\n");
        lemma_unix_not_empty(old_text@);
    }
    let crlf = contains(current, "\r\n");
    let normalized = replace_all(current, "\r\n", "\n");
    let old = replace_all(old_text, "\r\n", "\n");
    let new = replace_all(new_text, "\r\n", "\n");
    let chars = chars_of(normalized.as_str());
    let wanted = chars_of(old.as_str());
    let times = count_matches(&chars, &wanted);
    if times == 0 {
        return Err(PatchError::NotFound { path: path.to_owned() });
    }
    if times > 1 {
        return Err(PatchError::Ambiguous { path: path.to_owned(), occurrences: times });
    }
    let at: usize = match find_chars(&chars, &wanted, 0) {
        Some(at) => at,
        None => {
            return Err(PatchError::NotFound { path: path.to_owned() });
        },
    };
    let wanted_len: usize = wanted.len();
    let own = chars_of(current);
    let from = place_of(&own, at);
    let to = place_of(&own, at + wanted_len);
    proof {
        lemma_origin_grows(current@, at as nat, (at + wanted_len) as nat);
    }
    let before = slice_text(&own, 0, from);
    let after = slice_text(&own, to, own.len());
    assert(before@ =~= current@.take(from as int));
    assert(after@ =~= current@.skip(to as int));
    let written = if crlf {
        replace_all(new.as_str(), "\n", "\r\n")
    } else {
        new
    };
    Ok(cat3(before.as_str(), written.as_str(), after.as_str()))
}

/// A patch that is applied replaces the one stretch of the file that reads as the old text,
/// whatever its line endings, and keeps every character before and behind it.
pub proof fn law_patch_keeps_the_surroundings(
    path: Seq<char>,
    current: Seq<char>,
    old_text: Seq<char>,
    new_text: Seq<char>,
)
    requires
        patched(path, current, old_text, new_text) is Ok,
    ensures
        exists|before: Seq<char>, stretch: Seq<char>, after: Seq<char>|
            #![trigger before + stretch + after]
            {
                &&& current == before + stretch + after
                &&& unix(stretch) == unix(old_text)
                &&& patched(path, current, old_text, new_text)->Ok_0 == before + styled(
                    new_text,
                    current,
                ) + after
            },
{
    let s = unix(current);
    let p = unix(old_text);
    scan::lemma_find_from(s, p, 0);
    assert(split::matches_from(s, p, 0) == 1);
    let first = scan::first_at(s, p)->0 as nat;
    let from = origin(current, first);
    let to = origin(current, first + p.len());
    lemma_origin(current, first);
    lemma_origin(current, first + p.len());
    lemma_origin_grows(current, first, first + p.len());
    lemma_stretch(current, first, first + p.len(), first);
    let before = current.take(from);
    let stretch = current.subrange(from, to);
    let after = current.skip(to);
    assert(unix(stretch) == p);
    assert(current =~= before + stretch + after);
}

/// No carriage return stands in the text.
pub open spec fn without_cr(s: Seq<char>) -> bool {
    forall|i: int| 0 <= i < s.len() ==> s[i] != '\r'
}

proof fn lemma_windows_step(s: Seq<char>, from: int)
    requires
        0 <= from < s.len(),
    ensures
        s[from] == '\n' ==> split::replaced_from(s, "\n"@, "\r\n"@, from) == "\r\n"@
            + split::replaced_from(s, "\n"@, "\r\n"@, from + 1),
        s[from] != '\n' ==> split::replaced_from(s, "\n"@, "\r\n"@, from) == seq![s[from]]
            + split::replaced_from(s, "\n"@, "\r\n"@, from + 1),
{
    reveal_strlit("\n");
    let p = "\n"@;
    assert(p =~= seq!['\n']);
    scan::lemma_char_at(s, '\n', from);
    scan::lemma_char_at(s, '\n', from + 1);
    if s[from] == '\n' {
        assert(scan::char_at(s, '\n', from) == Some(from)) by {
            if scan::char_at(s, '\n', from) is Some {
                let i = scan::char_at(s, '\n', from)->0;
                if i > from {
                    assert(s[from] != '\n');
                }
            }
        }
        assert(s.subrange(from, from) =~= seq![]);
        assert(split::replaced_from(s, p, "\r\n"@, from) =~= "\r\n"@ + split::replaced_from(
            s,
            p,
            "\r\n"@,
            from + 1,
        ));
    } else {
        assert(scan::find_from(s, p, from) == scan::find_from(s, p, from + 1)) by {
            assert(!scan::occurs_at(s, p, from)) by {
                if scan::occurs_at(s, p, from) {
                    assert(s.subrange(from, from + 1)[0] == p[0]);
                }
            }
        }
        match scan::find_from(s, p, from + 1) {
            None => {
                assert(s.skip(from) =~= seq![s[from]] + s.skip(from + 1));
            },
            Some(i) => {
                assert(s.subrange(from, i) =~= seq![s[from]] + s.subrange(from + 1, i));
                let rest = split::replaced_from(s, p, "\r\n"@, i + 1);
                assert(s.subrange(from, i) + "\r\n"@ + rest =~= seq![s[from]] + (s.subrange(
                    from + 1,
                    i,
                ) + "\r\n"@ + rest));
            },
        }
    }
}

/// What `windows` writes from index `from` on.
spec fn tail(s: Seq<char>, from: int) -> Seq<char> {
    split::replaced_from(s, "\n"@, "\r\n"@, from)
}

/// Reading back: from the place `at` of `w` on stands what `windows` wrote of `s` from `from` on.
proof fn lemma_round_trip(s: Seq<char>, from: int, w: Seq<char>, at: int)
    requires
        0 <= from <= s.len(),
        0 <= at <= w.len(),
        w.skip(at) == tail(s, from),
    ensures
        split::replaced_from(w, "\r\n"@, "\n"@, at) == s.skip(from),
    decreases s.len() - from,
{
    reveal_strlit("\n");
    reveal_strlit("\r\n");
    let p = "\r\n"@;
    let q = "\n"@;
    assert(p =~= seq!['\r', '\n']);
    assert(q =~= seq!['\n']);
    if from == s.len() {
        assert(tail(s, from) =~= seq![]) by {
            scan::lemma_find_from(s, q, from);
            assert(scan::find_from(s, q, from) is None);
            assert(s.skip(from) =~= seq![]);
        }
        assert(w.len() == at);
        assert(scan::find_from(w, p, at) is None);
        assert(w.skip(at) =~= seq![]);
        assert(s.skip(from) =~= seq![]);
    } else {
        lemma_windows_step(s, from);
        let rest = tail(s, from + 1);
        if s[from] == '\n' {
            assert(w.skip(at) == p + rest);
            assert(w.skip(at)[0] == '\r' && w.skip(at)[1] == '\n');
            assert(w[at] == '\r' && w[at + 1] == '\n');
            assert(w.subrange(at, at + 2) =~= p);
            assert(scan::occurs_at(w, p, at));
            assert(scan::find_from(w, p, at) == Some(at));
            assert(w.skip(at + 2) =~= w.skip(at).skip(2));
            assert((p + rest).skip(2) =~= rest);
            lemma_round_trip(s, from + 1, w, at + 2);
            assert(w.subrange(at, at) =~= seq![]);
            assert(seq![] + q + s.skip(from + 1) =~= s.skip(from));
        } else {
            assert(w.skip(at) == seq![s[from]] + rest);
            assert(w.skip(at)[0] == s[from]);
            assert(w[at] == s[from]);
            assert(w.skip(at + 1) =~= w.skip(at).skip(1));
            assert((seq![s[from]] + rest).skip(1) =~= rest);
            lemma_round_trip(s, from + 1, w, at + 1);
            assert(!scan::occurs_at(w, p, at)) by {
                if scan::occurs_at(w, p, at) {
                    assert(w.subrange(at, at + 2)[1] == p[1]);
                    assert(w[at + 1] == '\n');
                    assert(w.skip(at + 1)[0] == '\n');
                    if from + 1 < s.len() {
                        lemma_windows_step(s, from + 1);
                    } else {
                        scan::lemma_find_from(s, q, from + 1);
                        assert(s.skip(from + 1) =~= seq![]);
                    }
                }
            }
            scan::lemma_find_from(w, p, at);
            scan::lemma_find_from(w, p, at + 1);
            match scan::find_from(w, p, at + 1) {
                None => {
                    assert(scan::find_from(w, p, at) is None);
                    assert(w.skip(at) =~= seq![w[at]] + w.skip(at + 1));
                },
                Some(i) => {
                    assert(scan::find_from(w, p, at) == Some(i));
                    let later = split::replaced_from(w, p, q, i + 2);
                    assert(w.subrange(at, i) =~= seq![w[at]] + w.subrange(at + 1, i));
                    assert(w.subrange(at, i) + q + later =~= seq![w[at]] + (w.subrange(at + 1, i)
                        + q + later));
                },
            }
            assert(seq![s[from]] + s.skip(from + 1) =~= s.skip(from));
        }
    }
}

/// Writing line endings as `\r\n` loses nothing: read with `\n`, the text is the same again.
pub proof fn law_line_endings_round_trip(s: Seq<char>)
    ensures
        unix(windows(s)) == s,
{
    assert(windows(s).skip(0) =~= windows(s));
    lemma_round_trip(s, 0, windows(s), 0);
    assert(s.skip(0) =~= s);
}

/// From an index on, a text reads as what stands there by itself.
proof fn lemma_unix_shift_by(s: Seq<char>, n: int)
    requires
        0 <= n <= s.len(),
    ensures
        split::replaced_from(s, "\r\n"@, "\n"@, n) == unix(s.skip(n)),
{
    reveal_strlit("\r\n");
    reveal_strlit("\n");
    split::lemma_replaced_shift(s, "\r\n"@, "\n"@, n);
}

/// How line endings are read: `\r\n` as `\n`, and every other character as it is.
pub proof fn law_only_line_endings_are_read_otherwise(c: char, s: Seq<char>)
    ensures
        unix(seq!['\r', '\n'] + s) == seq!['\n'] + unix(s),
        !(c == '\r' && s.len() > 0 && s[0] == '\n') ==> unix(seq![c] + s) == seq![c] + unix(s),
        unix(seq![]) == Seq::<char>::empty(),
{
    let both = seq!['\r', '\n'] + s;
    assert(crlf_at(both, 0));
    lemma_unix_step(both, 0);
    lemma_unix_shift_by(both, 2);
    assert(both.skip(2) =~= s);
    if !(c == '\r' && s.len() > 0 && s[0] == '\n') {
        let one = seq![c] + s;
        assert(one[0] == c);
        if s.len() > 0 {
            assert(one[1] == s[0]);
        }
        assert(!crlf_at(one, 0));
        lemma_unix_step(one, 0);
        lemma_unix_shift_by(one, 1);
        assert(one.skip(1) =~= s);
    }
    lemma_unix_end(seq![]);
}

/// A text without carriage returns reads as it is.
pub proof fn law_plain_texts_read_as_they_are(s: Seq<char>)
    requires
        without_cr(s),
    ensures
        unix(s) == s,
    decreases s.len(),
{
    if s.len() == 0 {
        assert(s =~= seq![]);
        lemma_unix_end(s);
    } else {
        let rest = s.skip(1);
        assert forall|i: int| 0 <= i < rest.len() implies rest[i] != '\r' by {
            assert(rest[i] == s[i + 1]);
        }
        law_plain_texts_read_as_they_are(rest);
        assert(s =~= seq![s[0]] + rest);
        law_only_line_endings_are_read_otherwise(s[0], rest);
    }
}

/// Every line of what is written to a file with `\r\n` ends in `\r\n`.
proof fn lemma_windows_lines(s: Seq<char>, from: int)
    requires
        0 <= from <= s.len(),
    ensures
        forall|i: int|
            0 <= i < tail(s, from).len() && #[trigger] tail(s, from)[i] == '\n' ==> i > 0 && tail(
                s,
                from,
            )[i - 1] == '\r',
    decreases s.len() - from,
{
    reveal_strlit("\r\n");
    reveal_strlit("\n");
    if from == s.len() {
        scan::lemma_find_from(s, "\n"@, from);
        assert(s.skip(from) =~= seq![]);
    } else {
        lemma_windows_step(s, from);
        lemma_windows_lines(s, from + 1);
        let rest = tail(s, from + 1);
        let whole = tail(s, from);
        let k: int = if s[from] == '\n' {
            2
        } else {
            1
        };
        assert forall|i: int| 0 <= i < whole.len() && #[trigger] whole[i] == '\n' implies i > 0
            && whole[i - 1] == '\r' by {
            if i >= k {
                assert(whole[i] == rest[i - k]);
                assert(whole[i - 1] == rest[i - k - 1]);
            }
        }
    }
}

/// A patch that is applied puts the new text where the old text stood, and nothing else changes. Read
/// with plain line endings, what stands there is the new text, to the character; a file without
/// `\r\n` gets it as it is, and in a file with `\r\n` each of its lines ends so.
pub proof fn law_patch_writes_the_new_text(
    path: Seq<char>,
    current: Seq<char>,
    old_text: Seq<char>,
    new_text: Seq<char>,
)
    requires
        patched(path, current, old_text, new_text) is Ok,
    ensures
        exists|before: Seq<char>, stretch: Seq<char>, written: Seq<char>, after: Seq<char>|
            #![trigger before + stretch + after, before + written + after]
            {
                &&& current == before + stretch + after
                &&& patched(path, current, old_text, new_text)->Ok_0 == before + written + after
                &&& unix(stretch) == unix(old_text)
                &&& text::stands_in(current, seq!['\r', '\n']) ==> unix(written) == unix(new_text)
                    && forall|i: int|
                    0 <= i < written.len() && #[trigger] written[i] == '\n' ==> i > 0 && written[i
                        - 1] == '\r'
                &&& !text::stands_in(current, seq!['\r', '\n']) ==> written == unix(new_text)
                &&& without_cr(new_text) ==> unix(written) == new_text
                &&& without_cr(new_text) && !text::stands_in(current, seq!['\r', '\n']) ==> written
                    == new_text
            },
{
    law_patch_keeps_the_surroundings(path, current, old_text, new_text);
    let (before, stretch, after) = choose|before: Seq<char>, stretch: Seq<char>, after: Seq<char>|
        #![trigger before + stretch + after]
        {
            &&& current == before + stretch + after
            &&& unix(stretch) == unix(old_text)
            &&& patched(path, current, old_text, new_text)->Ok_0 == before + styled(
                new_text,
                current,
            ) + after
        };
    let written = styled(new_text, current);
    reveal_strlit("\r\n");
    let p = seq!['\r', '\n'];
    assert("\r\n"@ =~= p);
    scan::lemma_find_from(current, p, 0);
    assert(uses_crlf(current) <==> text::stands_in(current, p)) by {
        if uses_crlf(current) {
            let i = scan::first_at(current, p)->0;
            assert(current.subrange(i, i + p.len()) == p);
        }
        if text::stands_in(current, p) {
            let at = choose|at: int|
                0 <= at && at + p.len() <= current.len() && #[trigger] current.subrange(
                    at,
                    at + p.len(),
                ) == p;
            assert(scan::occurs_at(current, p, at));
        }
    }
    let crlf = text::stands_in(current, p);
    law_line_endings_round_trip(unix(new_text));
    lemma_windows_lines(unix(new_text), 0);
    if without_cr(new_text) {
        law_plain_texts_read_as_they_are(new_text);
    }
    assert(crlf ==> unix(written) == unix(new_text));
    assert(crlf ==> written == tail(unix(new_text), 0));
    assert(!crlf ==> written == unix(new_text));
    assert(without_cr(new_text) ==> unix(written) == new_text);
    assert(current == before + stretch + after);
    assert(patched(path, current, old_text, new_text)->Ok_0 == before + written + after);
}

/// A patch is applied where the old text stands once in the file, read with plain line endings; it
/// is refused where it stands nowhere, and where it stands in two places beside each other.
pub proof fn law_patches_need_one_match(
    path: Seq<char>,
    current: Seq<char>,
    old_text: Seq<char>,
    new_text: Seq<char>,
    first: int,
    second: int,
)
    requires
        old_text.len() > 0,
    ensures
        (forall|i: int| !scan::occurs_at(unix(current), unix(old_text), i)) ==> patched(
            path,
            current,
            old_text,
            new_text,
        ) == Err::<Seq<char>, PatchError<Seq<char>>>(PatchError::NotFound { path }),
        scan::occurs_at(unix(current), unix(old_text), first) && scan::occurs_at(
            unix(current),
            unix(old_text),
            second,
        ) && second >= first + unix(old_text).len() ==> (patched(path, current, old_text, new_text)
            matches Err(PatchError::Ambiguous { path: told, .. }) && told == path),
        scan::occurs_at(unix(current), unix(old_text), first) && (forall|i: int|
            scan::occurs_at(unix(current), unix(old_text), i) ==> i == first) ==> patched(
            path,
            current,
            old_text,
            new_text,
        ) is Ok,
{
    let s = unix(current);
    let p = unix(old_text);
    lemma_unix_not_empty(old_text);
    reveal_with_fuel(split::matches_from, 3);
    scan::lemma_find_from(s, p, 0);
    if scan::first_at(s, p) is Some {
        let at = scan::first_at(s, p)->0;
        scan::lemma_find_from(s, p, at + p.len());
        if scan::occurs_at(s, p, first) && scan::occurs_at(s, p, second) && second >= first
            + p.len() {
            assert(at <= first);
            assert(scan::find_from(s, p, at + p.len()) is Some);
        }
    }
}

/// Why a patch was not made names the file, and how often the text stands in it.
#[verifier::rlimit(50)]
pub proof fn law_patch_errors_name_the_file(path: Seq<char>, occurrences: usize)
    ensures
        text::stands_in((PatchError::NotFound { path }).words(), path),
        text::stands_in((PatchError::Ambiguous { path, occurrences }).words(), path),
        text::stands_in(
            (PatchError::Ambiguous { path, occurrences }).words(),
            number::decimal(occurrences as nat),
        ),
{
    broadcast use text::group_stands;

}

} // verus!
