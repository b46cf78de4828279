//! Short forms: previews, excerpts, titles, ids and sizes as the user reads them.
use crate::bytes;
use crate::bytes::front_of_size;
use crate::context;
use crate::context::Expanded;
use crate::number;
use crate::number::{char_count, count, number as decimal_text, take_chars};
use crate::provider::{ImageAttachment, ImageModel};
use crate::scan;
use crate::scan::{find_chars, lower_chars, strip_prefix, trim, trim_ends, Class};
use crate::split;
use crate::split::{join, split_lines, split_words};
use crate::text;
use crate::text::{cat, cat3, chars_of, slice_text};
use vstd::prelude::*;
use vstd::string::*;

verus! {

broadcast use crate::text::group_views;

// ---------------------------------------------------------------------------------------------
// Previews and excerpts
// ---------------------------------------------------------------------------------------------

/// The most lines of an output that are shown whole.
pub const PREVIEW_LINES: usize = 20;

/// How many lines are shown of either end of a longer output.
pub const PREVIEW_END_LINES: usize = 10;

/// The most characters of a preview.
pub const PREVIEW_CHARS: usize = 1000;

/// A text cut to `max` characters, with a mark behind it where it was cut.
pub open spec fn clipped(s: Seq<char>, max: nat, mark: Seq<char>) -> Seq<char> {
    if s.len() > max {
        s.take(max as int) + mark
    } else {
        s
    }
}

/// A text cut to `max` characters, with a mark behind it where it was cut.
fn clip(text: &str, max: usize, mark: &str) -> (r: String)
    ensures
        r@ == clipped(text@, max as nat, mark@),
{
    let front = take_chars(text, max);
    if char_count(text) > max {
        cat(front.as_str(), mark)
    } else {
        front
    }
}

/// The lines of an output that a preview shows.
pub open spec fn shown_lines(lines: Seq<Seq<char>>) -> Seq<char> {
    if lines.len() <= PREVIEW_LINES {
        clipped(
            split::joined(lines, "\n"@),
            PREVIEW_CHARS as nat,
            " … (truncated, collapsed)"@,
        )
    } else {
        split::joined(lines.take(PREVIEW_END_LINES as int), "\n"@) + "\n… ("@ + number::decimal(
            (lines.len() - PREVIEW_LINES) as nat,
        ) + " lines hidden, collapsed) …\n"@ + split::joined(
            lines.skip(lines.len() - PREVIEW_END_LINES),
            "\n"@,
        )
    }
}

/// A preview of an output: all of a short one, and both ends of a long one.
pub open spec fn previewed(s: Seq<char>) -> Seq<char> {
    clipped(shown_lines(split::lines(s)), PREVIEW_CHARS as nat, "…"@)
}

fn copy_lines(lines: &[String], from: usize, to: usize) -> (r: Vec<String>)
    requires
        from <= to <= lines.len(),
    ensures
        text::views(r@) == text::views(lines@).subrange(from as int, to as int),
{
    let mut out: Vec<String> = Vec::new();
    let mut i: usize = from;
    while i < to
        invariant
            from <= i <= to <= lines.len(),
            text::views(out@) =~= text::views(lines@).subrange(from as int, i as int),
        decreases to - i,
    {
        out.push(lines[i].clone());
        i += 1;
    }
    out
}

/// A preview of an output.
pub fn preview_output(text: &str) -> (r: String)
    ensures
        r@ == previewed(text@),
{
    let lines = split_lines(text);
    let ghost all = split::lines(text@);
    let total = lines.len();
    let preview = if total <= PREVIEW_LINES {
        let whole = join(&lines, "\n");
        clip(whole.as_str(), PREVIEW_CHARS, " … (truncated, collapsed)")
    } else {
        let first = copy_lines(&lines, 0, PREVIEW_END_LINES);
        let last = copy_lines(&lines, total - PREVIEW_END_LINES, total);
        assert(text::views(first@) =~= all.take(PREVIEW_END_LINES as int));
        assert(text::views(last@) =~= all.skip(all.len() - PREVIEW_END_LINES));
        let head = join(&first, "\n");
        let tail = join(&last, "\n");
        let hidden = count(total - PREVIEW_LINES);
        let mut out = cat3(head.as_str(), "\n… (", hidden.as_str());
        out.append(" lines hidden, collapsed) …\n");
        out.append(tail.as_str());
        out
    };
    clip(preview.as_str(), PREVIEW_CHARS, "…")
}

/// How many characters of a text an excerpt shows.
pub const SNIPPET_WINDOW: usize = 80;

/// How many characters an excerpt shows before what was searched for.
pub const SNIPPET_LEAD: usize = 24;

/// Where the excerpt of a text begins: shortly before the first place where it holds the query,
/// whatever the case, and at its beginning where it does not.
pub open spec fn snippet_start(normalized: Seq<char>, query: Seq<char>) -> int {
    if query.len() == 0 {
        0
    } else {
        match scan::first_at(scan::lower(normalized), scan::lower(query)) {
            Some(i) => if i > SNIPPET_LEAD {
                i - SNIPPET_LEAD
            } else {
                0
            },
            None => 0,
        }
    }
}

/// The excerpt of a text around a query, in one line.
pub open spec fn snippet(content: Seq<char>, query: Seq<char>) -> Seq<char> {
    let normalized = split::joined(split::words(content), " "@);
    let start = snippet_start(normalized, query);
    let front = if start > 0 {
        "…"@
    } else {
        seq![]
    };
    front + clipped(normalized.skip(start), SNIPPET_WINDOW as nat, "…"@)
}

/// The excerpt of a text around a query, in one line.
pub fn make_snippet(content: &str, query: &str) -> (r: String)
    ensures
        r@ == snippet(content@, query@),
{
    let words = split_words(content);
    let line = join(&words, " ");
    let normalized = chars_of(line.as_str());
    let haystack = lower_chars(&normalized);
    let query_chars = chars_of(query);
    let needle = lower_chars(&query_chars);
    let start: usize = if needle.len() == 0 {
        0
    } else {
        match find_chars(&haystack, &needle, 0) {
            Some(i) => if i > SNIPPET_LEAD {
                i - SNIPPET_LEAD
            } else {
                0
            },
            None => 0,
        }
    };
    let rest = slice_text(&normalized, start, normalized.len());
    assert(rest@ =~= normalized@.skip(start as int));
    let tail = clip(rest.as_str(), SNIPPET_WINDOW, "…");
    if start > 0 {
        cat("…", tail.as_str())
    } else {
        assert(seq![] + tail@ =~= tail@);
        tail
    }
}

// ---------------------------------------------------------------------------------------------
// Titles, ids and paths
// ---------------------------------------------------------------------------------------------

/// What the model's own title may not have around it.
pub open spec fn title_marks() -> Seq<char> {
    seq!['"', '\'', '.', ':']
}

/// A title that the model made up: its first line, without marks around it, at most 60 characters.
pub open spec fn cleaned(title: Seq<char>) -> Seq<char> {
    let lines = split::lines(title);
    let first = if lines.len() > 0 {
        lines[0]
    } else {
        seq![]
    };
    number::first_chars(
        scan::trim_both(scan::trimmed(first), scan::one_of(title_marks())),
        60,
    )
}

/// A title that the model made up, cleaned.
pub fn clean_title(title: &str) -> (r: String)
    ensures
        r@ == cleaned(title@),
{
    let lines = split_lines(title);
    let first: String = if lines.len() > 0 {
        lines[0].clone()
    } else {
        String::new()
    };
    assert(lines.len() == 0 ==> first@ =~= seq![]);
    let marks: [char; 4] = ['"', '\'', '.', ':'];
    assert(marks@ =~= title_marks());
    let inner = trim(first.as_str());
    let bare = trim_ends(inner.as_str(), &Class::Of(&marks));
    take_chars(bare.as_str(), 60)
}

/// The short form of an id: its first eight bytes, or all of it where it cannot be cut there.
pub open spec fn short(id: Seq<char>) -> Seq<char> {
    let front = id.take(bytes::fitting(id, 8) as int);
    if bytes::size(front) == 8 {
        front
    } else {
        id
    }
}

/// The short form of an id.
pub fn short_id(id: &str) -> (r: String)
    ensures
        r@ == short(id@),
{
    let ghost n = bytes::fitting(id@, 8) as int;
    proof {
        bytes::lemma_fitting(id@, 8);
    }
    match front_of_size(id, 8) {
        Some(front) => {
            proof {
                let m = choose|m: int| 0 <= m <= id@.len() && front@ == #[trigger] id@.take(m);
                if m < n {
                    bytes::lemma_size_monotonic(id@, m + 1, n);
                    assert(id@.take(m + 1) =~= id@.take(m).push(id@[m]));
                    bytes::lemma_size_push(id@.take(m), id@[m]);
                    bytes::lemma_width_positive(id@[m]);
                } else if n < m {
                    bytes::lemma_size_monotonic(id@, n + 1, m);
                }
            }
            front
        },
        None => {
            assert(bytes::size(id@.take(n)) != 8);
            id.to_owned()
        },
    }
}

/// A path as it is shown, without the marks that a canonical path of Windows begins with.
pub open spec fn displayed(path: Seq<char>) -> Seq<char> {
    if scan::has_prefix(path, "\\\\?\\UNC\\"@) {
        "\\\\"@ + path.skip("\\\\?\\UNC\\"@.len() as int)
    } else if scan::has_prefix(path, "\\\\?\\"@) {
        path.skip("\\\\?\\"@.len() as int)
    } else {
        path
    }
}

/// A path as it is shown.
pub fn display_path(path: &str) -> (r: String)
    ensures
        r@ == displayed(path@),
{
    if let Some(rest) = strip_prefix(path, "\\\\?\\UNC\\") {
        cat("\\\\", rest.as_str())
    } else if let Some(rest) = strip_prefix(path, "\\\\?\\") {
        rest
    } else {
        path.to_owned()
    }
}

/// A tool's output without the mark of an error in front.
pub open spec fn body_of(output: Seq<char>) -> Seq<char> {
    if scan::has_prefix(output, "Error: "@) {
        output.skip("Error: "@.len() as int)
    } else {
        output
    }
}

/// A tool's output without the mark of an error in front.
pub fn tool_body(output: &str) -> (r: String)
    ensures
        r@ == body_of(output@),
{
    match strip_prefix(output, "Error: ") {
        Some(rest) => rest,
        None => output.to_owned(),
    }
}

// ---------------------------------------------------------------------------------------------
// Sizes and times
// ---------------------------------------------------------------------------------------------

/// `num / den`, rounded to the nearest integer and a half to the even one.
pub open spec fn rounded(num: nat, den: nat) -> nat {
    let q = num / den;
    let r = num % den;
    if 2 * r > den || (2 * r == den && q % 2 == 1) {
        q + 1
    } else {
        q
    }
}

/// The distance between the doubles around `n`, for an integer `n`.
pub open spec fn double_step(n: nat) -> nat
    decreases n,
{
    if n < 0x20_0000_0000_0000 {
        1
    } else {
        2 * double_step(n / 2)
    }
}

/// The integer that the double closest to `n` is.
pub open spec fn as_double(n: nat) -> nat {
    rounded(n, double_step(n)) * double_step(n)
}

/// A tenth of a unit in decimal.
pub open spec fn tenths(t: nat) -> Seq<char> {
    number::decimal(t / 10) + "."@ + number::decimal(t % 10)
}

/// A size in bytes as the user reads it.
pub open spec fn size_text(n: nat) -> Seq<char> {
    if n >= 0x10_0000 {
        tenths(rounded(10 * as_double(n), 0x10_0000)) + " MiB"@
    } else if n >= 1024 {
        number::decimal(n / 1024) + " KiB"@
    } else {
        number::decimal(n) + " B"@
    }
}

fn round_quotient(num: u128, den: u128) -> (r: u128)
    requires
        0 < den <= 0x1_0000_0000_0000_0000,
        num <= 0xf_0000_0000_0000_0000,
    ensures
        r == rounded(num as nat, den as nat),
        r <= num / den + 1,
{
    let q: u128 = num / den;
    let rest: u128 = num % den;
    assert(rest < den) by {
        vstd::arithmetic::div_mod::lemma_mod_bound(num as int, den as int);
    }
    assert(q <= num) by {
        vstd::arithmetic::div_mod::lemma_div_is_ordered_by_denominator(num as int, 1, den as int);
    }
    if 2 * rest > den || (2 * rest == den && q % 2 == 1) {
        q + 1
    } else {
        q
    }
}

fn step_of(n: u64) -> (r: u128)
    ensures
        r == double_step(n as nat),
        1 <= r <= 0x1000,
{
    let mut m: u64 = n;
    let mut step: u128 = 1;
    while m >= 0x20_0000_0000_0000
        invariant
            double_step(n as nat) == step * double_step(m as nat),
            1 <= step,
            step * m <= n,
            step <= 0x800 || m < 0x20_0000_0000_0000,
            step <= 0x1000,
            n <= 0xffff_ffff_ffff_ffff,
        decreases m,
    {
        let half: u64 = m / 2;
        assert(double_step(m as nat) == 2 * double_step(half as nat));
        assert(step * (2 * double_step(half as nat)) == (2 * step) * double_step(half as nat))
            by (nonlinear_arith);
        assert((2 * step) * half <= step * m) by (nonlinear_arith)
            requires
                half == m / 2,
                step >= 1,
        ;
        assert(2 * step <= 0x800 || half < 0x20_0000_0000_0000) by (nonlinear_arith)
            requires
                (2 * step) * half <= 0xffff_ffff_ffff_ffff,
        ;
        step = 2 * step;
        m = half;
    }
    assert(double_step(m as nat) == 1);
    assert(step * 1 == step);
    step
}

/// A size in bytes as the user reads it: whole bytes or KiB, or tenths of MiB.
pub fn format_bytes(n: usize) -> (r: String)
    ensures
        r@ == size_text(n as nat),
{
    let n: u64 = n as u64;
    if n >= 0x10_0000 {
        let step = step_of(n);
        let q = round_quotient(n as u128, step);
        assert(q * step <= n + step) by (nonlinear_arith)
            requires
                q <= n as int / step as int + 1,
                step >= 1,
        ;
        let d: u128 = q * step;
        let t: u128 = round_quotient(10 * d, 0x10_0000);
        assert(t <= 0x1000_0000_0000_0000);
        let t: u64 = t as u64;
        let whole = decimal_text(t / 10);
        let part = decimal_text(t % 10);
        let mut out = cat3(whole.as_str(), ".", part.as_str());
        out.append(" MiB");
        out
    } else if n >= 1024 {
        let whole = decimal_text(n / 1024);
        cat(whole.as_str(), " KiB")
    } else {
        let whole = decimal_text(n);
        cat(whole.as_str(), " B")
    }
}

/// A time in milliseconds as the user reads it: below a second in milliseconds, and otherwise in
/// tenths of a second, halves rounded up.
pub open spec fn duration_text(millis: nat) -> Seq<char> {
    if millis < 1000 {
        number::decimal(millis) + "ms"@
    } else {
        tenths((millis + 50) / 100) + "s"@
    }
}

/// A time in milliseconds as the user reads it.
pub fn format_duration(millis: u64) -> (r: String)
    requires
        millis <= u64::MAX - 50,
    ensures
        r@ == duration_text(millis as nat),
{
    if millis < 1000 {
        let whole = decimal_text(millis);
        cat(whole.as_str(), "ms")
    } else {
        let t: u64 = (millis + 50) / 100;
        let whole = decimal_text(t / 10);
        let part = decimal_text(t % 10);
        let mut out = cat3(whole.as_str(), ".", part.as_str());
        out.append("s");
        out
    }
}

// ---------------------------------------------------------------------------------------------
// Attachments
// ---------------------------------------------------------------------------------------------

/// One image: its kind and about how large it is, told from the four characters that Base64
/// takes for three bytes.
pub open spec fn image_text(image: ImageModel) -> Seq<char> {
    image.media_type + " ~"@ + size_text((context::bytes(image.data) / 4 * 3) as nat)
}

/// What is told of some images.
pub open spec fn images_text(images: Seq<ImageModel>) -> Option<Seq<char>> {
    if images.len() == 0 {
        None
    } else {
        Some(
            number::decimal(images.len()) + " image(s) ("@ + split::joined(
                images.map_values(|image: ImageModel| image_text(image)),
                ", "@,
            ) + ") \u{2014} needs a vision model"@,
        )
    }
}

/// What is told of some images; nothing where there are none.
pub fn describe_images(images: &[ImageAttachment]) -> (r: Option<String>)
    ensures
        text::opt_view(r) == images_text(text::views(images@)),
{
    if images.len() == 0 {
        return None;
    }
    let ghost all = text::views(images@);
    let ghost told = all.map_values(|image: ImageModel| image_text(image));
    let mut kinds: Vec<String> = Vec::new();
    let mut i: usize = 0;
    while i < images.len()
        invariant
            i <= images.len(),
            all == text::views(images@),
            told == all.map_values(|image: ImageModel| image_text(image)),
            text::views(kinds@) =~= told.take(i as int),
        decreases images.len() - i,
    {
        let image = &images[i];
        let size: usize = image.data.as_str().len();
        let shown = format_bytes(size / 4 * 3);
        let kind = cat3(image.media_type.as_str(), " ~", shown.as_str());
        assert(kind@ == image_text(all[i as int]));
        kinds.push(kind);
        i += 1;
    }
    assert(told.take(i as int) =~= told);
    let list = join(&kinds, ", ");
    let n = count(images.len());
    let mut out = cat3(n.as_str(), " image(s) (", list.as_str());
    out.append(") \u{2014} needs a vision model");
    Some(out)
}

/// What is told of what a prompt carries.
pub open spec fn attachments_text(attached: nat, omitted: nat, images: Seq<ImageModel>) -> Option<
    Seq<char>,
> {
    let files: Seq<Seq<char>> = if attached > 0 {
        seq![number::decimal(attached) + " file(s) attached"@]
    } else {
        seq![]
    };
    let left: Seq<Seq<char>> = if omitted > 0 {
        seq![
            number::decimal(omitted)
                + " left out (binary, too large, or over the context budget)"@,
        ]
    } else {
        seq![]
    };
    let pictures: Seq<Seq<char>> = match images_text(images) {
        Some(told) => seq![told],
        None => seq![],
    };
    let parts = files + left + pictures;
    if parts.len() == 0 {
        None
    } else {
        Some("\u{1f4ce} "@ + split::joined(parts, " \u{b7} "@))
    }
}

/// What is told of what a prompt carries besides its words; nothing where it carries nothing.
pub fn describe_attachments(expanded: &Expanded) -> (r: Option<String>)
    ensures
        text::opt_view(r) == attachments_text(
            expanded@.attached_files as nat,
            expanded@.omitted_files as nat,
            expanded@.images,
        ),
{
    let mut parts: Vec<String> = Vec::new();
    if expanded.attached_files > 0 {
        let n = decimal_text(expanded.attached_files);
        parts.push(cat(n.as_str(), " file(s) attached"));
    }
    if expanded.omitted_files > 0 {
        let n = decimal_text(expanded.omitted_files);
        parts.push(cat(n.as_str(), " left out (binary, too large, or over the context budget)"));
    }
    let pictures = describe_images(&expanded.images);
    if let Some(told) = pictures {
        parts.push(told);
    }
    let ghost files: Seq<Seq<char>> = if expanded@.attached_files > 0 {
        seq![number::decimal(expanded@.attached_files as nat) + " file(s) attached"@]
    } else {
        seq![]
    };
    let ghost left: Seq<Seq<char>> = if expanded@.omitted_files > 0 {
        seq![
            number::decimal(expanded@.omitted_files as nat)
                + " left out (binary, too large, or over the context budget)"@,
        ]
    } else {
        seq![]
    };
    let ghost seen: Seq<Seq<char>> = match images_text(expanded@.images) {
        Some(told) => seq![told],
        None => seq![],
    };
    assert(text::views(parts@) =~= files + left + seen);
    if parts.len() == 0 {
        return None;
    }
    let list = join(&parts, " \u{b7} ");
    Some(cat("\u{1f4ce} ", list.as_str()))
}

// ---------------------------------------------------------------------------------------------
// What shortening keeps
// ---------------------------------------------------------------------------------------------

/// Cutting keeps the front of a text, and all of it where it is short enough.
pub proof fn law_cutting_keeps_the_front(s: Seq<char>, max: nat, mark: Seq<char>)
    ensures
        s.len() <= max ==> clipped(s, max, mark) == s,
        s.len() > max ==> clipped(s, max, mark).take(max as int) == s.take(max as int) && clipped(
            s,
            max,
            mark,
        ).skip(max as int) == mark,
{
    if s.len() > max {
        assert(clipped(s, max, mark).take(max as int) =~= s.take(max as int));
        assert(clipped(s, max, mark).skip(max as int) =~= mark);
    }
}

/// A short output is shown whole, every line of it; of one with many lines the first and the last
/// are, and how many lie between.
#[verifier::rlimit(50)]
pub proof fn law_previews_show_the_ends(s: Seq<char>, lines: Seq<Seq<char>>, i: int)
    ensures
        split::lines(s).len() <= PREVIEW_LINES && split::joined(split::lines(s), "\n"@).len()
            <= PREVIEW_CHARS ==> previewed(s) == split::joined(split::lines(s), "\n"@),
        lines.len() > PREVIEW_LINES && (0 <= i < PREVIEW_END_LINES || lines.len() - PREVIEW_END_LINES
            <= i < lines.len()) ==> text::stands_in(shown_lines(lines), lines[i]),
        lines.len() > PREVIEW_LINES ==> text::stands_in(
            shown_lines(lines),
            number::decimal((lines.len() - PREVIEW_LINES) as nat),
        ),
        previewed(s).len() <= PREVIEW_CHARS + 1,
{
    reveal_strlit("…");
    if lines.len() > PREVIEW_LINES {
        let n = PREVIEW_END_LINES as int;
        let first = lines.take(n);
        let last = lines.skip(lines.len() - n);
        let hidden = number::decimal((lines.len() - PREVIEW_LINES) as nat);
        let whole = shown_lines(lines);
        assert(text::stands_in(whole, hidden)) by {
            broadcast use text::group_stands;

        }
        split::law_joining_keeps_every_part(first, first, "\n"@);
        split::law_joining_keeps_every_part(last, last, "\n"@);
        if 0 <= i < n {
            assert(first[i] == lines[i]);
            assert(text::stands_in(whole, lines[i])) by {
                broadcast use text::lemma_stands_added;

            }
        } else if lines.len() - n <= i < lines.len() {
            assert(last[i - (lines.len() - n)] == lines[i]);
            assert(text::stands_in(whole, lines[i])) by {
                broadcast use text::lemma_stands_added;

            }
        }
    }
}

/// A snippet shows what was searched for: the place where the words stand first, in whatever case,
/// and what leads up to it, unless the words are too long for it. Without words, or where they do not
/// stand, it shows the beginning.
pub proof fn law_snippets_show_what_was_found(content: Seq<char>, query: Seq<char>)
    requires
        query.len() <= SNIPPET_WINDOW - SNIPPET_LEAD,
    ensures
        ({
            let normalized = split::joined(split::words(content), " "@);
            let found = scan::first_at(scan::lower(normalized), scan::lower(query));
            let lead = if query.len() > 0 && found is Some && found->0 > SNIPPET_LEAD {
                found->0 - SNIPPET_LEAD
            } else {
                0
            };
            &&& query.len() > 0 && found is Some ==> found->0 + query.len() <= normalized.len()
                && text::stands_in(
                snippet(content, query),
                normalized.subrange(lead, found->0 + query.len()),
            )
            &&& lead == 0 && normalized.len() <= SNIPPET_WINDOW ==> snippet(content, query)
                == normalized
        }),
{
    let normalized = split::joined(split::words(content), " "@);
    let low = scan::lower(normalized);
    scan::lemma_find_from(low, scan::lower(query), 0);
    let start = snippet_start(normalized, query);
    let rest = normalized.skip(start);
    let cut = clipped(rest, SNIPPET_WINDOW as nat, "…"@);
    let front = if start > 0 {
        "…"@
    } else {
        seq![]
    };
    if query.len() > 0 && scan::first_at(low, scan::lower(query)) is Some {
        let i = scan::first_at(low, scan::lower(query))->0;
        let shown = normalized.subrange(start, i + query.len());
        let at = 0int;
        assert(cut.subrange(at, at + shown.len()) =~= shown);
        text::lemma_stands_added(front, cut, shown);
    }
    if start == 0 && normalized.len() <= SNIPPET_WINDOW {
        assert(rest =~= normalized);
        assert(front + cut =~= normalized);
    }
}

/// A title is cleaned of what stands around it and of further lines, and is otherwise kept: one that
/// is a single short line without marks at its ends stays as it is.
pub proof fn law_clean_titles_stay(title: Seq<char>)
    ensures
        cleaned(title).len() <= 60,
        0 < title.len() <= 60 && !title.contains('\n') && !text::is_white(title[0])
            && !text::is_white(title.last()) && title[0] != '"' && title[0] != '\'' && title[0]
            != '.' && title[0] != ':' && title.last() != '"' && title.last() != '\''
            && title.last() != '.' && title.last() != ':' ==> cleaned(title) == title,
{
    if 0 < title.len() <= 60 && !title.contains('\n') && !text::is_white(title[0])
        && !text::is_white(title.last()) && title[0] != '"' && title[0] != '\'' && title[0] != '.'
        && title[0] != ':' && title.last() != '"' && title.last() != '\'' && title.last() != '.'
        && title.last() != ':' {
        scan::lemma_char_at(title, '\n', 0);
        if let Some(i) = scan::char_at(title, '\n', 0) {
            assert(title.contains(title[i]));
        }
        assert(title.skip(0) =~= title);
        assert(split::lines(title) =~= seq![title]);
        scan::lemma_trimmed_bare(title);
        let p = scan::one_of(title_marks());
        let marks = title_marks();
        assert forall|c: char| #[trigger] p(c) implies c == '"' || c == '\'' || c == '.' || c
            == ':' by {
            let k = marks.index_of(c);
            assert(marks[k] == c);
        }
        assert(!p(title[0]) && !p(title.last()));
        assert(scan::span(title, p) == 0);
        assert(scan::trim_front(title, p) =~= title);
        assert(scan::span_back(title, p) == 0);
        assert(scan::trim_back(title, p) =~= title);
    }
}

/// An id in short is the front of the id, or all of it.
pub proof fn law_short_ids_are_fronts(id: Seq<char>)
    ensures
        short(id).is_prefix_of(id),
        bytes::size(short(id)) == 8 || short(id) == id,
{
    bytes::lemma_fitting(id, 8);
}

/// A path is shown as it is; only the mark of a long Windows path is left out, and of a share the
/// usual two backslashes stand in its place.
pub proof fn law_paths_are_shown_as_they_are(path: Seq<char>)
    requires
        path.len() > 0,
        path[0] != 'U',
    ensures
        path[0] != '\\' ==> displayed(path) == path,
        displayed("\\\\?\\"@ + path) == path,
        displayed("\\\\?\\UNC\\"@ + path) == "\\\\"@ + path,
{
    reveal_strlit("\\\\?\\UNC\\");
    reveal_strlit("\\\\?\\");
    let share = "\\\\?\\UNC\\"@;
    let long = "\\\\?\\"@;
    assert(share.len() == 8 && long.len() == 4);
    assert(share[0] == '\\' && share[4] == 'U' && long[0] == '\\');
    if path[0] != '\\' {
        if scan::has_prefix(path, share) {
            assert(path.subrange(0, 8)[0] == path[0]);
        }
        if scan::has_prefix(path, long) {
            assert(path.subrange(0, 4)[0] == path[0]);
        }
    }
    let a = long + path;
    if scan::has_prefix(a, share) {
        assert(a.subrange(0, 8)[4] == a[4]);
    }
    assert(a.subrange(0, 4) =~= long);
    assert(a.skip(4) =~= path);
    let b = share + path;
    assert(b.subrange(0, 8) =~= share);
    assert(b.skip(8) =~= path);
}

/// The words of an error are shown without the mark before them, and any other output as it is.
pub proof fn law_errors_are_shown_without_their_mark(words: Seq<char>)
    ensures
        body_of("Error: "@ + words) == words,
        words.len() > 0 && words[0] != 'E' ==> body_of(words) == words,
{
    reveal_strlit("Error: ");
    let marked = "Error: "@ + words;
    assert(marked.subrange(0, 7) =~= "Error: "@);
    assert(marked.skip(7) =~= words);
    if words.len() > 0 && words[0] != 'E' && scan::has_prefix(words, "Error: "@) {
        assert(words.subrange(0, 7)[0] == words[0]);
    }
}

/// Rounding goes to the nearest whole number, and from half-way to the even one.
pub proof fn law_rounding_is_to_the_nearest(num: nat, den: nat)
    requires
        den > 0,
    ensures
        ({
            let off = num - den * rounded(num, den);
            &&& -(den as int) <= 2 * off <= den
            &&& (2 * off == den || 2 * off == -(den as int)) ==> rounded(num, den) % 2 == 0
        }),
{
    let q = num / den;
    let r = num % den;
    vstd::arithmetic::div_mod::lemma_fundamental_div_mod(num as int, den as int);
    assert(den * (q + 1) == den * q + den) by (nonlinear_arith);
}

/// Every image is told of, with its kind, and how many there are.
#[verifier::rlimit(50)]
pub proof fn law_every_image_is_told_of(images: Seq<ImageModel>, i: int)
    requires
        0 <= i < images.len(),
    ensures
        images_text(images) matches Some(told) && text::stands_in(told, images[i].media_type)
            && text::stands_in(told, number::decimal(images.len())),
{
    let all = images.map_values(|image: ImageModel| image_text(image));
    let told = images_text(images)->0;
    split::law_joining_keeps_every_part(all, all, ", "@);
    assert(all[i] == image_text(images[i]));
    assert(text::stands_in(told, all[i])) by {
        broadcast use text::lemma_stands_added;

    }
    assert(text::stands_in(told, number::decimal(images.len()))) by {
        broadcast use text::group_stands;

    }
    assert(text::stands_in(all[i], images[i].media_type)) by {
        broadcast use text::group_stands;

    }
    text::lemma_stands_inside(told, all[i], images[i].media_type);
}

/// What a prompt carries is told, all of it: the files that came along, those that were left out, and
/// the images; and nothing only where there is none of them.
pub proof fn law_attachments_are_told_of(attached: nat, omitted: nat, images: Seq<ImageModel>)
    ensures
        attachments_text(attached, omitted, images) is None <==> attached == 0 && omitted == 0
            && images.len() == 0,
        attachments_text(attached, omitted, images) matches Some(told) ==> (attached > 0
            ==> text::stands_in(told, number::decimal(attached) + " file(s) attached"@)) && (omitted
            > 0 ==> text::stands_in(told, number::decimal(omitted))) && (images_text(images)
            matches Some(shown) ==> text::stands_in(told, shown)),
{
    let files: Seq<Seq<char>> = if attached > 0 {
        seq![number::decimal(attached) + " file(s) attached"@]
    } else {
        seq![]
    };
    let note = number::decimal(omitted)
        + " left out (binary, too large, or over the context budget)"@;
    let left: Seq<Seq<char>> = if omitted > 0 {
        seq![note]
    } else {
        seq![]
    };
    let pictures: Seq<Seq<char>> = match images_text(images) {
        Some(told) => seq![told],
        None => seq![],
    };
    let parts = files + left + pictures;
    if parts.len() > 0 {
        let list = split::joined(parts, " \u{b7} "@);
        let told = attachments_text(attached, omitted, images)->0;
        split::law_joining_keeps_every_part(parts, parts, " \u{b7} "@);
        assert forall|k: int| 0 <= k < parts.len() implies text::stands_in(told, #[trigger] parts[k]) by {
            text::lemma_stands_added("\u{1f4ce} "@, list, parts[k]);
        }
        if attached > 0 {
            assert(parts[0] == number::decimal(attached) + " file(s) attached"@);
        }
        if omitted > 0 {
            assert(parts[files.len() as int] == note);
            text::lemma_stands_itself(number::decimal(omitted));
            text::lemma_stands_added(
                number::decimal(omitted),
                " left out (binary, too large, or over the context budget)"@,
                number::decimal(omitted),
            );
            text::lemma_stands_inside(told, note, number::decimal(omitted));
        }
        if let Some(shown) = images_text(images) {
            assert(parts[parts.len() - 1] == shown);
        }
    }
}

/// Of a title that has several lines the first counts, and the others make no difference.
pub proof fn law_the_first_line_is_the_title(line: Seq<char>, rest: Seq<char>)
    requires
        line.len() > 0,
        !line.contains('\n'),
        line.last() != '\r',
    ensures
        cleaned(line.push('\n') + rest) == cleaned(line),
{
    let all = line.push('\n') + rest;
    let n = line.len() as int;
    scan::lemma_char_at(line, '\n', 0);
    scan::lemma_char_at(all, '\n', 0);
    assert(all[n] == '\n');
    assert forall|i: int| 0 <= i < n implies all[i] != '\n' by {
        assert(line.contains(line[i]));
    }
    assert(scan::char_at(all, '\n', 0) == Some(n));
    if let Some(i) = scan::char_at(line, '\n', 0) {
        assert(line.contains(line[i]));
    }
    assert(line.skip(0) =~= line);
    assert(split::lines(line) =~= seq![line]);
    assert(all.subrange(0, n) =~= line);
    assert(split::lines(all)[0] == line);
}

/// A duration is told to the millisecond below a second, and otherwise to the nearest tenth of one.
pub proof fn law_durations_are_told_to_the_tenth(millis: nat)
    ensures
        millis < 1000 ==> duration_text(millis) == number::decimal(millis) + "ms"@,
        millis >= 1000 ==> exists|t: nat| #[trigger]
            tenths(t) + "s"@ == duration_text(millis) && 100 * t <= millis + 50 && millis < 100 * t
                + 50,
{
    if millis >= 1000 {
        let t = (millis + 50) / 100;
        assert(tenths(t) + "s"@ == duration_text(millis));
    }
}

/// A size is told in whole bytes or kibibytes as long as it is small, none of them begun and not
/// filled.
pub proof fn law_sizes_are_told_in_whole_units(n: nat)
    ensures
        n < 1024 ==> size_text(n) == number::decimal(n) + " B"@,
        1024 <= n < 1048576 ==> exists|k: nat| #[trigger]
            number::decimal(k) + " KiB"@ == size_text(n) && 1024 * k <= n < 1024 * (k + 1),
        n >= 1048576 ==> exists|t: nat| #[trigger]
            tenths(t) + " MiB"@ == size_text(n) && t == rounded(10 * as_double(n), 1048576),
{
    if 1024 <= n < 1048576 {
        let k = n / 1024;
        assert(number::decimal(k) + " KiB"@ == size_text(n));
    } else if n >= 1048576 {
        let t = rounded(10 * as_double(n), 0x10_0000);
        assert(tenths(t) + " MiB"@ == size_text(n));
    }
}

/// Tenths are the whole part, a point and one digit.
pub proof fn law_tenths_have_one_digit(t: nat)
    ensures
        number::decimal(t / 10).is_prefix_of(tenths(t)),
        tenths(t).len() == number::decimal(t / 10).len() + 2,
        tenths(t)[tenths(t).len() - 2] == '.',
        tenths(t).last() as int == 48 + t % 10,
{
    reveal_strlit(".");
    assert(number::decimal(t / 10) =~= tenths(t).take(number::decimal(t / 10).len() as int));
    assert(number::decimal(t % 10) == seq![number::digit_char(t % 10)]);
}

} // verus!
