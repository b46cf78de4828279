//! Adding a profile to the global `kamui.toml`: a name that is not taken yet, and the block of
//! text to append.
use crate::number;
use crate::number::in_base;
use crate::scan;
use crate::scan::{same_ignoring_case, strip_prefix, trim, trim_end, Class};
use crate::settings;
use crate::settings::names_under;
use crate::split;
use crate::split::split_lines;
use crate::text;
use crate::text::{cat3, chars_of, is_ascii_alphanumeric, lowercase_char, string_of};
use vstd::prelude::*;
use vstd::string::*;

verus! {

broadcast use crate::text::group_views;

/// The character that stands for `c` in the name of a profile.
pub open spec fn name_char(c: char) -> char {
    if text::is_ascii_alnum(c) || c == '-' {
        text::lower_char(c)
    } else {
        '-'
    }
}

/// The name that a model gives a profile: letters in lower case, and a dash for whatever is
/// neither a letter nor a digit.
pub open spec fn base_name(model: Seq<char>) -> Seq<char> {
    Seq::new(model.len(), |i: int| name_char(model[i]))
}

fn make_base_name(model: &str) -> (r: String)
    ensures
        r@ == base_name(model@),
{
    let chars = chars_of(model);
    let mut out: Vec<char> = Vec::new();
    let mut i: usize = 0;
    while i < chars.len()
        invariant
            i <= chars.len(),
            chars@ == model@,
            out@ =~= base_name(model@).take(i as int),
        decreases chars.len() - i,
    {
        let c = chars[i];
        if is_ascii_alphanumeric(c) || c == '-' {
            out.push(lowercase_char(c));
        } else {
            out.push('-');
        }
        i += 1;
    }
    assert(base_name(model@).take(i as int) =~= base_name(model@));
    string_of(&out)
}

/// The closing bracket, as a predicate.
pub open spec fn bracket() -> spec_fn(char) -> bool {
    scan::one_of(seq![']'])
}

/// The name of the profile whose block a line opens.
pub open spec fn opened(line: Seq<char>) -> Option<Seq<char>> {
    if scan::has_prefix(line, "[profiles."@) {
        Some(
            scan::trimmed(
                scan::trim_back(line.skip("[profiles."@.len() as int), bracket()),
            ),
        )
    } else {
        None
    }
}

/// The names of the profiles whose blocks some lines open, in order.
pub open spec fn names_in(lines: Seq<Seq<char>>) -> Seq<Seq<char>>
    decreases lines.len(),
{
    if lines.len() == 0 {
        seq![]
    } else {
        match opened(lines.last()) {
            Some(name) => names_in(lines.drop_last()).push(name),
            None => names_in(lines.drop_last()),
        }
    }
}

/// The names of the profiles whose blocks the lines of a text open.
fn opened_names(existing: &str) -> (r: Vec<String>)
    ensures
        text::views(r@) == names_in(split::lines(existing@)),
{
    let lines = split_lines(existing);
    let ghost all = split::lines(existing@);
    let ends: [char; 1] = [']'];
    assert(ends@ =~= seq![']']);
    let mut out: Vec<String> = Vec::new();
    let mut i: usize = 0;
    assert(text::views(out@) =~= seq![]);
    while i < lines.len()
        invariant
            i <= lines.len(),
            text::views(lines@) == all,
            ends@ == seq![']'],
            text::views(out@) == names_in(all.take(i as int)),
        decreases lines.len() - i,
    {
        let ghost before = text::views(out@);
        assert(all.take(i + 1).drop_last() =~= all.take(i as int));
        assert(all.take(i + 1).last() == lines@[i as int]@);
        if let Some(rest) = strip_prefix(lines[i].as_str(), "[profiles.") {
            let open = trim_end(rest.as_str(), &Class::Of(&ends));
            let name = trim(open.as_str());
            out.push(name);
            assert(text::views(out@) =~= before.push(name@));
        }
        i += 1;
    }
    assert(all.take(i as int) =~= all);
    out
}

/// The names of the profiles that a file defines: the keys of its `profiles` table, however its
/// header is written. Where the text is no TOML, they are the names that stand in headers.
pub open spec fn names_taken(existing: Seq<char>) -> Set<Seq<char>> {
    match settings::parsed(existing) {
        Ok(inner) => settings::keys_under(inner, "profiles"@),
        Err(_) => names_in(split::lines(existing)).to_set(),
    }
}

/// The names of the profiles that a file defines.
pub fn taken_names(existing: &str) -> (r: Vec<String>)
    ensures
        text::views(r@).to_set() == names_taken(existing@),
{
    match names_under(existing, "profiles") {
        Some(names) => names,
        None => opened_names(existing),
    }
}

/// A name is among those taken, whatever the case of its letters.
pub open spec fn is_taken(taken: Set<Seq<char>>, name: Seq<char>) -> bool {
    exists|t: Seq<char>| #[trigger] taken.contains(t) && scan::lower(t) == scan::lower(name)
}

/// The names that are tried, in order: the plain one, then with `-2`, `-3` and so on behind it.
pub open spec fn candidate(name: Seq<char>, k: nat) -> Seq<char> {
    if k == 0 {
        name
    } else {
        name + "-"@ + number::decimal((k + 1) as nat)
    }
}

/// `k` is the place of the first candidate that is not taken.
pub open spec fn first_free(taken: Set<Seq<char>>, name: Seq<char>, k: nat) -> bool {
    &&& !is_taken(taken, candidate(name, k))
    &&& forall|j: nat| j < k ==> is_taken(taken, #[trigger] candidate(name, j))
}

/// Two candidates differ, even in lower case.
proof fn lemma_candidates_differ(name: Seq<char>, j: nat, k: nat)
    requires
        j < k,
    ensures
        scan::lower(candidate(name, j)) != scan::lower(candidate(name, k)),
{
    reveal_strlit("-");
    let b = candidate(name, k);
    let digits_k = number::decimal((k + 1) as nat);
    number::law_decimal_reads_back((k + 1) as nat);
    if j == 0 {
        assert(b.len() > name.len());
        assert(scan::lower(b).len() != scan::lower(name).len());
    } else {
        let a = candidate(name, j);
        let digits_j = number::decimal((j + 1) as nat);
        number::law_decimal_reads_back((j + 1) as nat);
        if scan::lower(a) == scan::lower(b) {
            assert(scan::lower(a).len() == scan::lower(b).len());
            assert(digits_j.len() == digits_k.len());
            assert forall|i: int| 0 <= i < digits_j.len() implies digits_j[i] == digits_k[i] by {
                let at = name.len() + 1 + i;
                assert(a[at] == digits_j[i]);
                assert(b[at] == digits_k[i]);
                assert(scan::lower(a)[at] == text::lower_char(digits_j[i]));
                assert(scan::lower(b)[at] == text::lower_char(digits_k[i]));
            }
            assert(digits_j =~= digits_k);
            assert(false);
        }
    }
}

fn contains_name(taken: &[String], name: &str) -> (r: Option<usize>)
    ensures
        match r {
            Some(i) => i < taken.len() && scan::lower(text::views(taken@)[i as int])
                == scan::lower(name@),
            None => !is_taken(text::views(taken@).to_set(), name@),
        },
{
    let mut i: usize = 0;
    while i < taken.len()
        invariant
            i <= taken.len(),
            forall|j: int|
                0 <= j < i ==> scan::lower(#[trigger] text::views(taken@)[j]) != scan::lower(name@),
        decreases taken.len() - i,
    {
        if same_ignoring_case(taken[i].as_str(), name) {
            return Some(i);
        }
        i += 1;
    }
    proof {
        let names = text::views(taken@);
        if is_taken(names.to_set(), name@) {
            let t = choose|t: Seq<char>| #[trigger]
                names.to_set().contains(t) && scan::lower(t) == scan::lower(name@);
            let j = names.index_of(t);
            assert(names.contains(t));
            assert(names[j] == t);
        }
    }
    None
}

/// The first candidate that is not taken. There is one among any more candidates than names.
pub fn free_name(taken: &[String], name: &str) -> (r: String)
    ensures
        exists|k: nat| #[trigger]
            first_free(text::views(taken@).to_set(), name@, k) && r@ == candidate(name@, k),
{
    let ghost names = text::views(taken@);
    let ghost all = names.to_set();
    let mut out = name.to_owned();
    let mut k: u128 = 0;
    let ghost mut hits: Set<int> = Set::empty();
    loop
        invariant
            names == text::views(taken@),
            all == names.to_set(),
            out@ == candidate(name@, k as nat),
            forall|j: nat| j < k ==> is_taken(all, #[trigger] candidate(name@, j)),
            hits.finite(),
            hits.len() == k,
            hits.subset_of(vstd::set_lib::set_int_range(0, taken.len() as int)),
            forall|i: int| #[trigger]
                hits.contains(i) ==> exists|j: nat|
                    j < k && scan::lower(names[i]) == scan::lower(#[trigger] candidate(name@, j)),
            k <= taken.len(),
        decreases taken.len() - k,
    {
        let at: usize = match contains_name(taken, out.as_str()) {
            Some(at) => at,
            None => {
                assert(first_free(all, name@, k as nat));
                return out;
            },
        };
        proof {
            let range = vstd::set_lib::set_int_range(0, taken.len() as int);
            assert(scan::lower(names[at as int]) == scan::lower(candidate(name@, k as nat)));
            if hits.contains(at as int) {
                let j = choose|j: nat|
                    j < k && scan::lower(names[at as int]) == scan::lower(
                        #[trigger] candidate(name@, j),
                    );
                lemma_candidates_differ(name@, j, k as nat);
                assert(false);
            }
            assert(all.contains(names[at as int]));
            assert(is_taken(all, candidate(name@, k as nat)));
            let more = hits.insert(at as int);
            assert(more.subset_of(range));
            vstd::set_lib::lemma_int_range(0, taken.len() as int);
            vstd::set_lib::lemma_len_subset(more, range);
            assert forall|i: int| #[trigger] more.contains(i) implies exists|j: nat|
                j < k + 1 && scan::lower(names[i]) == scan::lower(#[trigger] candidate(name@, j)) by {
                if i == at {
                    assert(scan::lower(names[i]) == scan::lower(candidate(name@, k as nat)));
                }
            }
            hits = more;
        }
        k += 1;
        let digits = in_base(k + 1, 10);
        out = cat3(name, "-", digits.as_str());
    }
}

/// The block of text that defines a profile.
pub open spec fn block(
    name: Seq<char>,
    base_url: Seq<char>,
    api_key: Seq<char>,
    model: Seq<char>,
) -> Seq<char> {
    "\n[profiles."@ + name + "]\nmodel = \""@ + model + "\"\nbase_url = \""@ + base_url
        + "\"\napi_key = \""@ + api_key + "\"\n"@
}

/// The name of a new profile for a model in a file with text `existing`, and the block of text to
/// append to that file.
pub fn append_profile(existing: &str, base_url: &str, api_key: &str, model: &str) -> (r: (
    String,
    String,
))
    ensures
        exists|k: nat| #[trigger]
            first_free(names_taken(existing@), base_name(model@), k) && r.0@ == candidate(
                base_name(model@),
                k,
            ),
        !names_taken(existing@).contains(r.0@),
        r.1@ == block(r.0@, base_url@, api_key@, model@),
{
    let plain = make_base_name(model);
    let taken = taken_names(existing);
    let name = free_name(&taken, plain.as_str());
    proof {
        let k = choose|k: nat| #[trigger]
            first_free(names_taken(existing@), plain@, k) && name@ == candidate(plain@, k);
        law_new_name_is_free(names_taken(existing@), plain@, k);
    }
    let mut out = "\n[profiles.".to_owned();
    out.append(name.as_str());
    out.append("]\nmodel = \"");
    out.append(model);
    out.append("\"\nbase_url = \"");
    out.append(base_url);
    out.append("\"\napi_key = \"");
    out.append(api_key);
    out.append("\"\n");
    (name, out)
}

/// A new profile never takes the name of one that is there.
pub proof fn law_new_name_is_free(taken: Set<Seq<char>>, name: Seq<char>, k: nat)
    requires
        first_free(taken, name, k),
    ensures
        !taken.contains(candidate(name, k)),
{
    if taken.contains(candidate(name, k)) {
        assert(scan::lower(candidate(name, k)) == scan::lower(candidate(name, k)));
    }
}

/// A character that may stand in a name without quotes.
pub open spec fn is_plain(c: char) -> bool {
    'a' <= c <= 'z' || '0' <= c <= '9' || c == '-'
}

/// A new profile's name is made of small letters, digits and dashes.
pub proof fn law_new_name_is_plain(model: Seq<char>, k: nat)
    ensures
        forall|i: int|
            0 <= i < candidate(base_name(model), k).len() ==> is_plain(
                #[trigger] candidate(base_name(model), k)[i],
            ),
{
    let name = candidate(base_name(model), k);
    let digits = number::decimal((k + 1) as nat);
    reveal_strlit("-");
    number::law_decimal_reads_back((k + 1) as nat);
    assert forall|i: int| 0 <= i < name.len() implies is_plain(#[trigger] name[i]) by {
        if i < model.len() {
            assert(name[i] == name_char(model[i]));
        } else if i > model.len() {
            assert(name[i] == digits[i - model.len() - 1]);
        }
    }
}

/// A new profile holds what was given for it, each under its own key and unchanged, below a heading
/// with its name.
pub proof fn law_profiles_hold_what_was_given(
    name: Seq<char>,
    base_url: Seq<char>,
    api_key: Seq<char>,
    model: Seq<char>,
)
    ensures
        text::stands_in(block(name, base_url, api_key, model), "\n[profiles."@ + name + "]\n"@),
        text::stands_in(block(name, base_url, api_key, model), "\nmodel = \""@ + model + "\"\n"@),
        text::stands_in(
            block(name, base_url, api_key, model),
            "\nbase_url = \""@ + base_url + "\"\n"@,
        ),
        text::stands_in(block(name, base_url, api_key, model), "\napi_key = \""@ + api_key + "\"\n"@),
{
    reveal_strlit("]\nmodel = \"");
    reveal_strlit("]\n");
    reveal_strlit("]");
    reveal_strlit("model = \"");
    reveal_strlit("\nmodel = \"");
    reveal_strlit("\"\nbase_url = \"");
    reveal_strlit("\nbase_url = \"");
    reveal_strlit("base_url = \"");
    reveal_strlit("\"\napi_key = \"");
    reveal_strlit("\napi_key = \"");
    reveal_strlit("api_key = \"");
    reveal_strlit("\"");
    reveal_strlit("\"\n");
    let whole = block(name, base_url, api_key, model);
    let head = "\n[profiles."@ + name + "]\n"@;
    let first = "\nmodel = \""@ + model + "\"\n"@;
    let second = "\nbase_url = \""@ + base_url + "\"\n"@;
    let third = "\napi_key = \""@ + api_key + "\"\n"@;
    let none: Seq<char> = seq![];
    let behind_second = "api_key = \""@ + api_key + "\"\n"@;
    let behind_first = "base_url = \""@ + base_url + "\""@ + third;
    assert(whole =~= none + head + ("model = \""@ + model + "\""@ + second + behind_second));
    assert(whole =~= "\n[profiles."@ + name + "]"@ + first + behind_first);
    assert(whole =~= "\n[profiles."@ + name + "]"@ + "\nmodel = \""@ + model + "\""@ + second
        + behind_second);
    let before = "\n[profiles."@ + name + "]"@ + "\nmodel = \""@ + model + "\""@;
    assert(whole =~= before + second + behind_second);
    assert(whole =~= before + "\nbase_url = \""@ + base_url + "\""@ + third);
    let more = before + "\nbase_url = \""@ + base_url + "\""@;
    assert(whole =~= more + third + none);
    text::lemma_stands_between(none, head, "model = \""@ + model + "\""@ + second + behind_second);
    text::lemma_stands_between("\n[profiles."@ + name + "]"@, first, behind_first);
    text::lemma_stands_between(before, second, behind_second);
    text::lemma_stands_between(more, third, none);
}

/// A profile is called as its model is, character by character, wherever a name can be: only capitals
/// become small and other characters dashes.
pub proof fn law_profiles_are_named_after_their_model(model: Seq<char>, i: int)
    requires
        0 <= i < model.len(),
    ensures
        base_name(model).len() == model.len(),
        is_plain(model[i]) ==> base_name(model)[i] == model[i],
        'A' <= model[i] <= 'Z' ==> base_name(model)[i] == text::lower_char(model[i]),
        !is_plain(model[i]) && !('A' <= model[i] <= 'Z') ==> base_name(model)[i] == '-',
        candidate(base_name(model), 0) == base_name(model),
{
}

/// Every heading of a profile is seen: those of two stretches of lines are those of the one and then
/// those of the other, and a line with a plain name between the brackets opens the profile of that
/// name.
pub proof fn law_every_heading_is_seen(
    first: Seq<Seq<char>>,
    second: Seq<Seq<char>>,
    name: Seq<char>,
)
    requires
        forall|i: int| 0 <= i < name.len() ==> is_plain(#[trigger] name[i]),
    ensures
        names_in(first + second) == names_in(first) + names_in(second),
        names_in(seq!["[profiles."@ + name + "]"@]) == seq![name],
    decreases second.len(),
{
    reveal_with_fuel(names_in, 2);
    let line = "[profiles."@ + name + "]"@;
    assert(opened(line) == Some(name)) by {
        reveal_strlit("]");
        let n = "[profiles."@.len() as int;
        assert(line.subrange(0, n) =~= "[profiles."@);
        let rest = line.skip(n);
        assert(rest =~= name.push(']'));
        assert(seq![']'].contains(']')) by {
            assert(seq![']'][0] == ']');
        }
        let p = bracket();
        if name.len() > 0 {
            assert(is_plain(name[name.len() - 1]));
            assert(!p(name.last()));
        }
        scan::lemma_span_back_unique(rest, p, 1);
        assert(scan::trim_back(rest, p) =~= name);
        if name.len() > 0 {
            assert(is_plain(name[0]));
            scan::lemma_trimmed_bare(name);
        } else {
            assert(scan::trimmed(name) =~= name);
        }
    }
    assert(seq![line].drop_last() =~= seq![]);
    assert(names_in(seq![line]) =~= seq![name]);
    if second.len() == 0 {
        assert(first + second =~= first);
        assert(names_in(first) + names_in(second) =~= names_in(first));
    } else {
        law_every_heading_is_seen(first, second.drop_last(), name);
        assert((first + second).drop_last() =~= first + second.drop_last());
        assert((first + second).last() == second.last());
        assert(names_in(first + second) =~= names_in(first) + names_in(second));
    }
}

/// A name that is taken is tried again with a number behind it, each number once and counting from
/// the second.
pub proof fn law_further_names_are_numbered(name: Seq<char>, k: nat, other: nat)
    requires
        k != other,
    ensures
        candidate(name, 0) == name,
        name.is_prefix_of(candidate(name, k)),
        k > 0 ==> number::decimal(k + 1).is_suffix_of(candidate(name, k)) && candidate(name, k).len()
            == name.len() + 1 + number::decimal(k + 1).len(),
        candidate(name, k) != candidate(name, other),
{
    reveal_strlit("-");
    number::law_decimal_reads_back(k + 1);
    number::law_decimal_reads_back(other + 1);
    let a = candidate(name, k);
    let b = candidate(name, other);
    assert(name =~= a.take(name.len() as int));
    if k > 0 {
        assert(a.skip(name.len() as int + 1) =~= number::decimal(k + 1));
        assert(number::decimal(k + 1) =~= a.skip(a.len() - number::decimal(k + 1).len()));
    }
    if other > 0 {
        assert(b.skip(name.len() as int + 1) =~= number::decimal(other + 1));
    }
}

} // verus!
