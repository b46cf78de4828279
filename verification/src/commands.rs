//! Which built-in command a line means: in full, by a unique beginning, or nearly.
use crate::scan;
use crate::scan::{starts_with, to_lower, trim_start, Class};
use crate::split;
use crate::split::join;
use crate::text;
use crate::text::{cat, cat3, chars_of, same, slice_text};
use crate::tui;
use crate::tui::builtins;
use vstd::prelude::*;
use vstd::string::*;

verus! {

broadcast use crate::text::group_views;

// ---------------------------------------------------------------------------------------------
// Edit distance
// ---------------------------------------------------------------------------------------------

pub open spec fn min(a: nat, b: nat) -> nat {
    if a <= b {
        a
    } else {
        b
    }
}

/// How many single characters have to be replaced, added or taken away to get from `a` to `b`.
pub open spec fn distance(a: Seq<char>, b: Seq<char>) -> nat
    decreases a.len() + b.len(),
{
    if a.len() == 0 {
        b.len()
    } else if b.len() == 0 {
        a.len()
    } else {
        let replace = distance(a.drop_last(), b.drop_last()) + if a.last() == b.last() {
            0nat
        } else {
            1nat
        };
        min(
            replace,
            min(distance(a.drop_last(), b) + 1, distance(a, b.drop_last()) + 1),
        )
    }
}

/// The distance is at least the difference of the lengths and at most the longer length.
pub proof fn law_distance_bounds(a: Seq<char>, b: Seq<char>)
    ensures
        distance(a, b) <= a.len() || distance(a, b) <= b.len(),
        a.len() <= distance(a, b) + b.len(),
        b.len() <= distance(a, b) + a.len(),
    decreases a.len() + b.len(),
{
    if a.len() > 0 && b.len() > 0 {
        law_distance_bounds(a.drop_last(), b.drop_last());
        law_distance_bounds(a.drop_last(), b);
        law_distance_bounds(a, b.drop_last());
    }
}

/// The way back is as long as the way there.
pub proof fn law_distance_symmetric(a: Seq<char>, b: Seq<char>)
    ensures
        distance(a, b) == distance(b, a),
    decreases a.len() + b.len(),
{
    if a.len() > 0 && b.len() > 0 {
        law_distance_symmetric(a.drop_last(), b.drop_last());
        law_distance_symmetric(a.drop_last(), b);
        law_distance_symmetric(a, b.drop_last());
    }
}

/// Only the same text is at no distance.
pub proof fn law_distance_zero(a: Seq<char>, b: Seq<char>)
    ensures
        distance(a, b) == 0 <==> a == b,
    decreases a.len() + b.len(),
{
    if a.len() == 0 || b.len() == 0 {
        if distance(a, b) == 0 {
            assert(a =~= b);
        }
    } else {
        law_distance_zero(a.drop_last(), b.drop_last());
        if distance(a, b) == 0 {
            assert(a =~= a.drop_last().push(a.last()));
            assert(b =~= b.drop_last().push(b.last()));
        }
    }
}

/// One step on the way from a text to another, character by character.
pub enum Edit {
    Keep(char),
    Replace(char, char),
    Add(char),
    TakeAway(char),
}

/// The text that some steps start from.
pub open spec fn source(steps: Seq<Edit>) -> Seq<char>
    decreases steps.len(),
{
    if steps.len() == 0 {
        seq![]
    } else {
        let before = source(steps.drop_last());
        match steps.last() {
            Edit::Keep(c) => before.push(c),
            Edit::Replace(c, _) => before.push(c),
            Edit::Add(_) => before,
            Edit::TakeAway(c) => before.push(c),
        }
    }
}

/// The text that some steps lead to.
pub open spec fn target(steps: Seq<Edit>) -> Seq<char>
    decreases steps.len(),
{
    if steps.len() == 0 {
        seq![]
    } else {
        let before = target(steps.drop_last());
        match steps.last() {
            Edit::Keep(c) => before.push(c),
            Edit::Replace(_, c) => before.push(c),
            Edit::Add(c) => before.push(c),
            Edit::TakeAway(_) => before,
        }
    }
}

/// How many of some steps change something.
pub open spec fn changes(steps: Seq<Edit>) -> nat
    decreases steps.len(),
{
    if steps.len() == 0 {
        0
    } else {
        changes(steps.drop_last()) + if steps.last() is Keep {
            0nat
        } else {
            1nat
        }
    }
}

/// Some steps lead from `a` to `b`.
pub open spec fn leads(steps: Seq<Edit>, a: Seq<char>, b: Seq<char>) -> bool {
    source(steps) == a && target(steps) == b
}

/// No way from `a` to `b` has fewer changes than the distance, and one has exactly as many.
pub proof fn law_distance_is_the_fewest_changes(a: Seq<char>, b: Seq<char>)
    ensures
        exists|steps: Seq<Edit>| #[trigger]
            leads(steps, a, b) && changes(steps) == distance(a, b),
        forall|steps: Seq<Edit>| #[trigger]
            leads(steps, a, b) ==> changes(steps) >= distance(a, b),
{
    let steps = lemma_shortest_way(a, b);
    assert(leads(steps, a, b));
    assert forall|steps: Seq<Edit>| #[trigger] leads(steps, a, b) implies changes(steps)
        >= distance(a, b) by {
        lemma_no_shorter_way(steps);
    }
}

/// What one more step adds.
proof fn lemma_one_more(before: Seq<Edit>, last: Edit)
    ensures
        ({
            let steps = before.push(last);
            &&& source(steps) == match last {
                Edit::Keep(c) => source(before).push(c),
                Edit::Replace(c, _) => source(before).push(c),
                Edit::Add(_) => source(before),
                Edit::TakeAway(c) => source(before).push(c),
            }
            &&& target(steps) == match last {
                Edit::Keep(c) => target(before).push(c),
                Edit::Replace(_, c) => target(before).push(c),
                Edit::Add(c) => target(before).push(c),
                Edit::TakeAway(_) => target(before),
            }
            &&& changes(steps) == changes(before) + if last is Keep {
                0nat
            } else {
                1nat
            }
        }),
{
    assert(before.push(last).drop_last() =~= before);
}

/// A way with as many changes as the distance.
proof fn lemma_shortest_way(a: Seq<char>, b: Seq<char>) -> (r: Seq<Edit>)
    ensures
        leads(r, a, b),
        changes(r) == distance(a, b),
    decreases a.len() + b.len(),
{
    if a.len() == 0 && b.len() == 0 {
        let none: Seq<Edit> = seq![];
        assert(source(none) =~= a);
        assert(target(none) =~= b);
        none
    } else if a.len() == 0 {
        let before = lemma_shortest_way(a, b.drop_last());
        let steps = before.push(Edit::Add(b.last()));
        lemma_one_more(before, Edit::Add(b.last()));
        assert(b =~= b.drop_last().push(b.last()));
        steps
    } else if b.len() == 0 {
        let before = lemma_shortest_way(a.drop_last(), b);
        let steps = before.push(Edit::TakeAway(a.last()));
        lemma_one_more(before, Edit::TakeAway(a.last()));
        assert(a =~= a.drop_last().push(a.last()));
        steps
    } else {
        assert(a =~= a.drop_last().push(a.last()));
        assert(b =~= b.drop_last().push(b.last()));
        let replaced = distance(a.drop_last(), b.drop_last()) + if a.last() == b.last() {
            0nat
        } else {
            1nat
        };
        let taken = distance(a.drop_last(), b) + 1;
        let last = if replaced <= taken && replaced <= distance(a, b.drop_last()) + 1 {
            if a.last() == b.last() {
                Edit::Keep(a.last())
            } else {
                Edit::Replace(a.last(), b.last())
            }
        } else if taken <= distance(a, b.drop_last()) + 1 {
            Edit::TakeAway(a.last())
        } else {
            Edit::Add(b.last())
        };
        let before = match last {
            Edit::TakeAway(_) => lemma_shortest_way(a.drop_last(), b),
            Edit::Add(_) => lemma_shortest_way(a, b.drop_last()),
            _ => lemma_shortest_way(a.drop_last(), b.drop_last()),
        };
        let steps = before.push(last);
        lemma_one_more(before, last);
        steps
    }
}

/// A way has at least as many changes as the distance between its ends.
proof fn lemma_no_shorter_way(steps: Seq<Edit>)
    ensures
        changes(steps) >= distance(source(steps), target(steps)),
    decreases steps.len(),
{
    if steps.len() > 0 {
        let before = steps.drop_last();
        lemma_no_shorter_way(before);
        let a = source(steps);
        let b = target(steps);
        match steps.last() {
            Edit::Keep(_) | Edit::Replace(_, _) => {
                assert(a.drop_last() =~= source(before));
                assert(b.drop_last() =~= target(before));
            },
            Edit::Add(_) => {
                assert(b.drop_last() =~= target(before));
            },
            Edit::TakeAway(_) => {
                assert(a.drop_last() =~= source(before));
                if b.len() == 0 && a.drop_last().len() == 0 {
                    assert(distance(a.drop_last(), b) == 0);
                }
            },
        }
    }
}

/// A row of distances: from the first `i` characters of `a` to each front of `b`.
spec fn is_row(row: Seq<usize>, a: Seq<char>, b: Seq<char>, i: int) -> bool {
    &&& row.len() == b.len() + 1
    &&& forall|j: int|
        0 <= j <= b.len() ==> (#[trigger] row[j]) as nat == distance(a.take(i), b.take(j))
}

/// How many single characters have to be replaced, added or taken away to get from one text to
/// the other.
pub fn edit_distance(left: &str, right: &str) -> (r: usize)
    requires
        left@.len() < usize::MAX,
        right@.len() < usize::MAX,
    ensures
        r == distance(left@, right@),
{
    let a = chars_of(left);
    let b = chars_of(right);
    let mut previous: Vec<usize> = Vec::new();
    let mut k: usize = 0;
    assert(a@.take(0) =~= seq![]);
    while k < b.len()
        invariant
            k <= b.len(),
            b.len() < usize::MAX,
            previous@.len() == k,
            forall|j: int| 0 <= j < k ==> (#[trigger] previous@[j]) == j,
        decreases b.len() - k,
    {
        previous.push(k);
        k += 1;
    }
    previous.push(k);
    assert(is_row(previous@, a@, b@, 0));
    let mut i: usize = 0;
    while i < a.len()
        invariant
            i <= a.len(),
            a.len() < usize::MAX,
            b.len() < usize::MAX,
            is_row(previous@, a@, b@, i as int),
        decreases a.len() - i,
    {
        let ghost front = a@.take(i + 1);
        assert(front.drop_last() =~= a@.take(i as int));
        assert(front.last() == a@[i as int]);
        let mut current: Vec<usize> = Vec::new();
        current.push(i + 1);
        assert(b@.take(0) =~= seq![]);
        let mut j: usize = 0;
        while j < b.len()
            invariant
                j <= b.len(),
                i < a.len(),
                a.len() < usize::MAX,
                b.len() < usize::MAX,
                is_row(previous@, a@, b@, i as int),
                front == a@.take(i + 1),
                front.drop_last() == a@.take(i as int),
                front.last() == a@[i as int],
                current@.len() == j + 1,
                forall|m: int|
                    0 <= m <= j ==> (#[trigger] current@[m]) as nat == distance(front, b@.take(m)),
            decreases b.len() - j,
        {
            let ghost target = b@.take(j + 1);
            proof {
                assert(target.drop_last() =~= b@.take(j as int));
                assert(target.last() == b@[j as int]);
                law_distance_bounds(a@.take(i as int), b@.take(j as int));
                law_distance_bounds(a@.take(i as int), target);
                law_distance_bounds(front, b@.take(j as int));
                assert(previous@[j as int] as nat == distance(a@.take(i as int), b@.take(j as int)));
                assert(previous@[j + 1] as nat == distance(a@.take(i as int), b@.take(j + 1)));
                assert(current@[j as int] as nat == distance(front, b@.take(j as int)));
            }
            let replace: usize = if a[i] == b[j] {
                previous[j]
            } else {
                previous[j] + 1
            };
            let drop: usize = previous[j + 1] + 1;
            let add: usize = current[j] + 1;
            let mut best: usize = replace;
            if drop < best {
                best = drop;
            }
            if add < best {
                best = add;
            }
            assert(best as nat == distance(front, target));
            current.push(best);
            j += 1;
        }
        assert(is_row(current@, a@, b@, i + 1));
        previous = current;
        i += 1;
    }
    assert(a@.take(i as int) =~= left@);
    assert(b@.take(b@.len() as int) =~= right@);
    assert(previous@[b@.len() as int] as nat == distance(a@.take(i as int), b@.take(b@.len() as int)));
    previous[b.len()]
}

// ---------------------------------------------------------------------------------------------
// The nearest command
// ---------------------------------------------------------------------------------------------

/// The order in which candidates are preferred: by the first number, and then by the second.
pub open spec fn before(a: (nat, nat), b: (nat, nat)) -> bool {
    a.0 < b.0 || (a.0 == b.0 && a.1 < b.1)
}

/// The name with the best rank; of several, the first. Names without a rank do not count.
pub open spec fn best(names: Seq<Seq<char>>, rank: spec_fn(Seq<char>) -> Option<(nat, nat)>) -> Option<
    Seq<char>,
>
    decreases names.len(),
{
    if names.len() == 0 {
        None
    } else {
        let so_far = best(names.drop_last(), rank);
        match rank(names.last()) {
            None => so_far,
            Some(k) => match so_far {
                None => Some(names.last()),
                Some(b) => if before(k, rank(b)->0) {
                    Some(names.last())
                } else {
                    so_far
                },
            },
        }
    }
}

/// Names that begin with what was typed rank by their length.
pub open spec fn prefix_rank(typed: Seq<char>) -> spec_fn(Seq<char>) -> Option<(nat, nat)> {
    |name: Seq<char>|
        if scan::has_prefix(name, typed) {
            Some((0nat, name.len()))
        } else {
            None
        }
}

/// Names at a distance of at most two rank by the distance, and then by their length.
pub open spec fn typo_rank(typed: Seq<char>) -> spec_fn(Seq<char>) -> Option<(nat, nat)> {
    |name: Seq<char>|
        if distance(typed, name) <= 2 {
            Some((distance(typed, name), name.len()))
        } else {
            None
        }
}

/// What was typed, without the slashes in front and in lower case.
pub open spec fn typed_name(typed: Seq<char>) -> Seq<char> {
    scan::lower(scan::trim_front(typed, scan::one_of(seq!['/'])))
}

/// The built-in command closest to what was typed: the shortest that begins with it, or else the
/// one with the fewest wrong characters.
pub open spec fn nearest(typed: Seq<char>) -> Option<Seq<char>> {
    let name = typed_name(typed);
    if name.len() == 0 {
        None
    } else {
        match best(tui::builtin_names(), prefix_rank(name)) {
            Some(found) => Some(found),
            None => best(tui::builtin_names(), typo_rank(name)),
        }
    }
}

/// The names of the built-in commands.
fn names_list() -> (r: Vec<String>)
    ensures
        text::views(r@) == tui::builtin_names(),
        forall|i: int| 0 <= i < r@.len() ==> (#[trigger] r@[i])@.len() < 100,
{
    let all = builtins();
    let ghost names = tui::builtin_names();
    let mut out: Vec<String> = Vec::new();
    let mut i: usize = 0;
    proof {
        tui::lemma_builtin_candidates();
    }
    while i < all.len()
        invariant
            i <= all.len(),
            text::views(all@) == tui::builtin_candidates(),
            names == tui::builtin_names(),
            all@.len() == names.len(),
            forall|j: int|
                0 <= j < names.len() ==> (#[trigger] tui::builtin_candidates()[j]).name == names[j],
            text::views(out@) =~= names.take(i as int),
        decreases all.len() - i,
    {
        assert(all@[i as int]@ == tui::builtin_candidates()[i as int]);
        out.push(all[i].name.clone());
        i += 1;
    }
    proof {
        tui::lemma_builtins_are_short();
        assert forall|i: int| 0 <= i < out@.len() implies (#[trigger] out@[i])@.len() < 100 by {
            assert(text::views(out@)[i] == names[i]);
        }
    }
    out
}

/// The shortest name that begins with what was typed.
fn best_prefix(names: &[String], typed: &str) -> (r: Option<String>)
    ensures
        text::opt_view(r) == best(text::views(names@), prefix_rank(typed@)),
{
    let ghost all = text::views(names@);
    let ghost rank = prefix_rank(typed@);
    let mut found: Option<String> = None;
    let mut length: usize = 0;
    let mut i: usize = 0;
    while i < names.len()
        invariant
            i <= names.len(),
            all == text::views(names@),
            rank == prefix_rank(typed@),
            text::opt_view(found) == best(all.take(i as int), rank),
            found matches Some(name) ==> length == name@.len() && rank(name@) == Some(
                (0nat, name@.len()),
            ),
        decreases names.len() - i,
    {
        assert(all.take(i + 1).drop_last() =~= all.take(i as int));
        assert(all.take(i + 1).last() == names@[i as int]@);
        if starts_with(names[i].as_str(), typed) {
            let n = crate::number::char_count(names[i].as_str());
            let better = match &found {
                None => true,
                Some(_) => n < length,
            };
            if better {
                found = Some(names[i].clone());
                length = n;
            }
        }
        i += 1;
    }
    assert(all.take(i as int) =~= all);
    found
}

/// The name with the fewest wrong characters, where there are at most two.
fn best_typo(names: &[String], typed: &str) -> (r: Option<String>)
    requires
        typed@.len() < usize::MAX,
        forall|i: int| 0 <= i < names@.len() ==> (#[trigger] names@[i])@.len() < usize::MAX,
    ensures
        text::opt_view(r) == best(text::views(names@), typo_rank(typed@)),
{
    let ghost all = text::views(names@);
    let ghost rank = typo_rank(typed@);
    let mut found: Option<String> = None;
    let mut wrong: usize = 0;
    let mut length: usize = 0;
    let mut i: usize = 0;
    while i < names.len()
        invariant
            i <= names.len(),
            typed@.len() < usize::MAX,
            forall|i: int| 0 <= i < names@.len() ==> (#[trigger] names@[i])@.len() < usize::MAX,
            all == text::views(names@),
            rank == typo_rank(typed@),
            text::opt_view(found) == best(all.take(i as int), rank),
            found matches Some(name) ==> rank(name@) == Some((wrong as nat, length as nat)),
        decreases names.len() - i,
    {
        assert(all.take(i + 1).drop_last() =~= all.take(i as int));
        assert(all.take(i + 1).last() == names@[i as int]@);
        let d = edit_distance(typed, names[i].as_str());
        if d <= 2 {
            let n = crate::number::char_count(names[i].as_str());
            let better = match &found {
                None => true,
                Some(_) => d < wrong || (d == wrong && n < length),
            };
            if better {
                found = Some(names[i].clone());
                wrong = d;
                length = n;
            }
        }
        i += 1;
    }
    assert(all.take(i as int) =~= all);
    found
}

/// The built-in command closest to what was typed, where one is close enough.
pub fn nearest_command(typed: &str) -> (r: Option<String>)
    requires
        typed@.len() < usize::MAX,
    ensures
        text::opt_view(r) == nearest(typed@),
{
    let slashes: [char; 1] = ['/'];
    assert(slashes@ =~= seq!['/']);
    let bare = trim_start(typed, &Class::Of(&slashes));
    let name = to_lower(bare.as_str());
    proof {
        scan::lemma_span_bound(typed@, scan::one_of(seq!['/']));
    }
    if name.as_str().is_empty() {
        return None;
    }
    let names = names_list();
    match best_prefix(&names, name.as_str()) {
        Some(found) => Some(found),
        None => best_typo(&names, name.as_str()),
    }
}

/// A command that is not known is never suggested anything but a built-in one.
pub proof fn law_suggestions_are_builtins(typed: Seq<char>)
    ensures
        nearest(typed) matches Some(name) ==> tui::builtin_names().contains(name),
{
    lemma_best_is_listed(tui::builtin_names(), prefix_rank(typed_name(typed)));
    lemma_best_is_listed(tui::builtin_names(), typo_rank(typed_name(typed)));
}

proof fn lemma_best_is_listed(
    names: Seq<Seq<char>>,
    rank: spec_fn(Seq<char>) -> Option<(nat, nat)>,
)
    ensures
        best(names, rank) matches Some(name) ==> names.contains(name) && rank(name) is Some,
    decreases names.len(),
{
    if names.len() > 0 {
        lemma_best_is_listed(names.drop_last(), rank);
        if let Some(name) = best(names, rank) {
            if best(names.drop_last(), rank) == Some(name) {
                let i = choose|i: int|
                    0 <= i < names.drop_last().len() && names.drop_last()[i] == name;
                assert(names[i] == name);
            }
        }
    }
}

// ---------------------------------------------------------------------------------------------
// Abbreviations
// ---------------------------------------------------------------------------------------------

/// A beginning that more than one command has.
#[derive(Debug)]
pub struct Ambiguous {
    pub command: String,
    pub names: Vec<String>,
}

/// The names, each behind a slash.
pub open spec fn slashed(names: Seq<Seq<char>>) -> Seq<Seq<char>> {
    names.map_values(|name: Seq<char>| "/"@ + name)
}

impl Ambiguous {
    /// What the user reads.
    pub fn message(&self) -> (r: String)
        ensures
            r@ == "Ambiguous command \""@ + self.command@ + "\". Choose one of: "@ + split::joined(
                slashed(text::views(self.names@)),
                ", "@,
            ),
    {
        let ghost all = slashed(text::views(self.names@));
        let mut out: Vec<String> = Vec::new();
        let mut i: usize = 0;
        while i < self.names.len()
            invariant
                i <= self.names.len(),
                all == slashed(text::views(self.names@)),
                text::views(out@) =~= all.take(i as int),
            decreases self.names.len() - i,
        {
            out.push(cat("/", self.names[i].as_str()));
            i += 1;
        }
        assert(all.take(i as int) =~= all);
        let list = join(&out, ", ");
        let mut words = cat3("Ambiguous command \"", self.command.as_str(), "\". Choose one of: ");
        words.append(list.as_str());
        words
    }
}

/// The names that begin with a text, in order.
pub open spec fn names_with(names: Seq<Seq<char>>, front: Seq<char>) -> Seq<Seq<char>> {
    names.filter(|name: Seq<char>| scan::has_prefix(name, front))
}

/// The command that a line means: a built-in one named in full, whatever the case, or by a
/// beginning that it alone has. Anything else stays as it is, unless several commands begin so.
pub open spec fn meant(command: Seq<char>) -> Result<Seq<char>, Seq<Seq<char>>> {
    if command.len() == 0 || command[0] != '/' {
        Ok(command)
    } else {
        let needle = scan::lower(command.skip(1));
        let names = tui::builtin_names();
        let found = names_with(names, needle);
        if names.contains(needle) {
            Ok("/"@ + needle)
        } else if found.len() == 1 {
            Ok("/"@ + found[0])
        } else if found.len() == 0 {
            Ok(command)
        } else {
            Err(found)
        }
    }
}

fn filter_names(names: &[String], front: &str) -> (r: Vec<String>)
    ensures
        text::views(r@) == names_with(text::views(names@), front@),
{
    let ghost all = text::views(names@);
    let ghost keep = |name: Seq<char>| scan::has_prefix(name, front@);
    let mut out: Vec<String> = Vec::new();
    let mut i: usize = 0;
    assert(all.take(0).filter(keep) =~= seq![]) by {
        reveal(Seq::filter);
    }
    assert(text::views(out@) =~= seq![]);
    while i < names.len()
        invariant
            i <= names.len(),
            all == text::views(names@),
            keep == (|name: Seq<char>| scan::has_prefix(name, front@)),
            text::views(out@) == all.take(i as int).filter(keep),
        decreases names.len() - i,
    {
        let ghost before = text::views(out@);
        proof {
            reveal(Seq::filter);
            assert(all.take(i + 1).drop_last() =~= all.take(i as int));
        }
        if starts_with(names[i].as_str(), front) {
            out.push(names[i].clone());
            assert(text::views(out@) =~= before.push(all[i as int]));
        }
        i += 1;
    }
    assert(all.take(i as int) =~= all);
    out
}

/// The command that a line means.
pub fn resolve_builtin_command(command: &str) -> (r: Result<String, Ambiguous>)
    ensures
        match r {
            Ok(name) => meant(command@) == Ok::<Seq<char>, Seq<Seq<char>>>(name@),
            Err(e) => meant(command@) == Err::<Seq<char>, Seq<Seq<char>>>(text::views(e.names@))
                && e.command@ == command@,
        },
{
    let chars = chars_of(command);
    if chars.len() == 0 || chars[0] != '/' {
        return Ok(command.to_owned());
    }
    let rest = slice_text(&chars, 1, chars.len());
    assert(rest@ =~= command@.skip(1));
    let needle = to_lower(rest.as_str());
    let names = names_list();
    let ghost all = tui::builtin_names();
    let mut i: usize = 0;
    while i < names.len()
        invariant
            i <= names.len(),
            command@.len() > 0 && command@[0] == '/',
            text::views(names@) == all,
            all == tui::builtin_names(),
            needle@ == scan::lower(command@.skip(1)),
            forall|j: int| 0 <= j < i ==> all[j] != needle@,
        decreases names.len() - i,
    {
        if same(names[i].as_str(), needle.as_str()) {
            assert(all[i as int] == needle@);
            return Ok(cat("/", needle.as_str()));
        }
        i += 1;
    }
    assert(!all.contains(needle@));
    let mut found = filter_names(&names, needle.as_str());
    if found.len() == 1 {
        assert(text::views(found@)[0] == found@[0]@);
        Ok(cat("/", found[0].as_str()))
    } else if found.len() == 0 {
        Ok(command.to_owned())
    } else {
        Err(Ambiguous { command: command.to_owned(), names: found })
    }
}

/// Every advertised command is understood by its own name.
pub proof fn law_builtins_mean_themselves(i: int)
    requires
        0 <= i < tui::builtin_names().len(),
    ensures
        meant("/"@ + tui::builtin_names()[i]) == Ok::<Seq<char>, Seq<Seq<char>>>(
            "/"@ + tui::builtin_names()[i],
        ),
{
    reveal_strlit("/");
    let name = tui::builtin_names()[i];
    let command = "/"@ + name;
    assert(command[0] == '/');
    assert(command.skip(1) =~= name);
    tui::lemma_builtins_are_plain();
    tui::lemma_plain_word(name);
}

// ---------------------------------------------------------------------------------------------
// What is suggested
// ---------------------------------------------------------------------------------------------

/// The best of a list is one of it that ranks, none that ranks is better, and of equals it is the
/// first; there is none only where nothing ranks.
pub proof fn law_the_best_is_best(
    names: Seq<Seq<char>>,
    rank: spec_fn(Seq<char>) -> Option<(nat, nat)>,
    i: int,
)
    requires
        0 <= i < names.len(),
    ensures
        rank(names[i]) is Some ==> (best(names, rank) matches Some(found) && names.contains(found)
            && rank(found) is Some && !before(rank(names[i])->0, rank(found)->0)),
        best(names, rank) is None ==> rank(names[i]) is None,
        best(names, rank) matches Some(found) ==> names.contains(found) && rank(found) is Some,
    decreases names.len(),
{
    let front = names.drop_last();
    let n = front.len() as int;
    assert(names[n] == names.last());
    if n > 0 {
        law_the_best_is_best(front, rank, 0);
        if i < n {
            law_the_best_is_best(front, rank, i);
            assert(front[i] == names[i]);
        }
        if let Some(found) = best(front, rank) {
            let k = front.index_of(found);
            assert(names[k] == found);
        }
    }
}

/// A command is completed to a built-in one that begins as it does, and only where there is no other;
/// where there are several they are all named, and anything else is left as it was typed.
pub proof fn law_abbreviations_stand_for_builtins(command: Seq<char>, name: Seq<char>)
    requires
        command.len() > 0,
        command[0] == '/',
    ensures
        match meant(command) {
            Ok(full) => full == command || (full.len() > 0 && full[0] == '/'
                && tui::builtin_names().contains(full.skip(1)) && scan::lower(
                command.skip(1),
            ).is_prefix_of(full.skip(1))),
            Err(found) => found.len() > 1 && (tui::builtin_names().contains(name) && scan::lower(
                command.skip(1),
            ).is_prefix_of(name) ==> found.contains(name)) && (found.contains(name)
                ==> tui::builtin_names().contains(name)),
        },
{
    reveal_strlit("/");
    let needle = scan::lower(command.skip(1));
    let names = tui::builtin_names();
    let found = names_with(names, needle);
    let keep = |name: Seq<char>| scan::has_prefix(name, needle);
    assert(("/"@ + needle).skip(1) =~= needle);
    if found.contains(name) {
        names.lemma_filter_contains_rev(keep, name);
    }
    if names.contains(name) && needle.is_prefix_of(name) {
        assert(name.subrange(0, needle.len() as int) =~= needle);
        let k = names.index_of(name);
        assert(keep(names[k]));
        names.lemma_filter_contains(keep, k);
    }
    if found.len() == 1 {
        names.lemma_filter_pred(keep, 0);
        assert(keep(found[0]));
        assert(("/"@ + found[0]).skip(1) =~= found[0]);
        assert(found.contains(found[0]));
        names.lemma_filter_contains_rev(keep, found[0]);
        assert(found[0].subrange(0, needle.len() as int) == needle);
        assert(needle.is_prefix_of(found[0]));
    }
}

/// What is suggested begins with what was typed wherever some built-in command does, and otherwise
/// differs from it in at most two places; whenever there is such a command, one is suggested.
pub proof fn law_suggestions_are_near(typed: Seq<char>, i: int)
    requires
        typed_name(typed).len() > 0,
        0 <= i < tui::builtin_names().len(),
    ensures
        typed_name(typed).is_prefix_of(tui::builtin_names()[i]) ==> (nearest(typed) matches Some(
            found,
        ) && typed_name(typed).is_prefix_of(found) && found.len()
            <= tui::builtin_names()[i].len()),
        distance(typed_name(typed), tui::builtin_names()[i]) <= 2 ==> nearest(typed) is Some,
        nearest(typed) matches Some(found) ==> typed_name(typed).is_prefix_of(found) || distance(
            typed_name(typed),
            found,
        ) <= 2,
{
    let name = typed_name(typed);
    let names = tui::builtin_names();
    let front = prefix_rank(name);
    let near = typo_rank(name);
    law_the_best_is_best(names, front, i);
    law_the_best_is_best(names, near, i);
    if name.is_prefix_of(names[i]) {
        assert(names[i].subrange(0, name.len() as int) =~= name);
        assert(scan::has_prefix(names[i], name));
    }
    if let Some(found) = best(names, front) {
        assert(scan::has_prefix(found, name));
        assert(found.subrange(0, name.len() as int) == name);
        assert(name =~= found.take(name.len() as int));
    }
}

/// The slashes before a command and its case make no difference to what it is taken for.
pub proof fn law_slashes_and_case_make_no_difference(typed: Seq<char>)
    ensures
        nearest(seq!['/'] + typed) == nearest(typed),
        typed_name(seq!['/'] + typed) == typed_name(typed),
{
    let p = scan::one_of(seq!['/']);
    let more = seq!['/'] + typed;
    assert(seq!['/'].contains('/')) by {
        assert(seq!['/'][0] == '/');
    }
    assert(p(more[0]));
    assert(more.skip(1) =~= typed);
    assert(scan::span(more, p) == 1 + scan::span(typed, p));
    scan::lemma_span_bound(typed, p);
    assert(scan::trim_front(more, p) =~= scan::trim_front(typed, p));
}

} // verus!
