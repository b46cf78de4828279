//! Slash commands: which there are, which names they reserve, and how the menu offers them.
use crate::order;
use crate::order::{sort_named, Named};
use crate::scan;
use crate::scan::{starts_with, to_lower, trim};
use crate::text;
use crate::text::{cat, cat3, chars_of, holds, same, slice_text};
use vstd::prelude::*;
use vstd::string::*;

verus! {

broadcast use crate::text::group_views;

/// What the menu offers.
#[derive(Debug)]
pub struct Candidate {
    /// Without the slash in front.
    pub name: String,
    pub description: String,
}

/// What a [`Candidate`] stands for.
#[verifier::ext_equal]
pub struct CandidateModel {
    pub name: Seq<char>,
    pub description: Seq<char>,
}

impl View for Candidate {
    type V = CandidateModel;

    open spec fn view(&self) -> CandidateModel {
        CandidateModel { name: self.name@, description: self.description@ }
    }
}

impl Named for Candidate {
    open spec fn name_in(model: CandidateModel) -> Seq<char> {
        model.name
    }

    fn name_text(&self) -> (r: &str) {
        self.name.as_str()
    }
}

/// The names of the built-in commands, in the order in which they are advertised.
pub open spec fn builtin_names() -> Seq<Seq<char>> {
    seq![
        "help"@,
        "new"@,
        "sessions"@,
        "resume"@,
        "model"@,
        "rename"@,
        "search"@,
        "compact"@,
        "undo"@,
        "jobs"@,
        "index"@,
        "commands"@,
        "delete"@,
        "stats"@,
        "usage"@,
        "status"@,
        "mcp"@,
        "memory"@,
        "forget"@,
        "expand"@,
        "collapse"@,
        "exit"@,
        "plan"@,
        "mode"@,
        "skills"@,
        "warnings"@,
        "theme"@,
        "themes"@,
    ]
}

/// The descriptions of the built-in commands.
pub open spec fn builtin_abouts() -> Seq<Seq<char>> {
    seq![
        "Show available commands"@,
        "Start a new session"@,
        "List saved sessions"@,
        "Resume a session"@,
        "List or switch provider profiles"@,
        "Rename a session"@,
        "Search saved messages"@,
        "Summarize older messages"@,
        "Revert the last turn's file edits"@,
        "List session and scheduled jobs"@,
        "Rebuild the semantic-search index"@,
        "List your own prompt commands"@,
        "Delete a session"@,
        "Show current session usage"@,
        "Show token usage by day and month"@,
        "Show project and connection status"@,
        "List MCP servers and their tools"@,
        "List remembered facts"@,
        "Forget a remembered fact"@,
        "Expand the last transcript card"@,
        "Collapse the last transcript card"@,
        "Save and quit"@,
        "Enter Plan Mode"@,
        "Cycle build / auto / plan (also Tab)"@,
        "List discovered skills"@,
        "Hide/show warnings; details; fix"@,
        "List or switch theme (also /themes)"@,
        "List or switch theme"@,
    ]
}

/// The built-in commands as the menu offers them.
pub open spec fn builtin_candidates() -> Seq<CandidateModel> {
    Seq::new(
        builtin_names().len(),
        |i: int| CandidateModel { name: builtin_names()[i], description: builtin_abouts()[i] },
    )
}

pub proof fn lemma_builtin_candidates()
    ensures
        builtin_candidates().len() == builtin_names().len(),
        forall|i: int|
            0 <= i < builtin_names().len() ==> (#[trigger] builtin_candidates()[i]).name
                == builtin_names()[i],
{
}

fn push_candidate(out: &mut Vec<Candidate>, name: &str, description: &str)
    ensures
        text::views(final(out)@) == text::views(old(out)@).push(
            CandidateModel { name: name@, description: description@ },
        ),
{
    let ghost before = text::views(out@);
    out.push(Candidate { name: name.to_owned(), description: description.to_owned() });
    assert(text::views(out@) =~= before.push(
        CandidateModel { name: name@, description: description@ },
    ));
}

/// The built-in commands.
pub fn builtins() -> (r: Vec<Candidate>)
    ensures
        text::views(r@) == builtin_candidates(),
{
    let mut out: Vec<Candidate> = Vec::new();
    assert(text::views(out@) =~= seq![]);
    push_candidate(&mut out, "help", "Show available commands");
    push_candidate(&mut out, "new", "Start a new session");
    push_candidate(&mut out, "sessions", "List saved sessions");
    push_candidate(&mut out, "resume", "Resume a session");
    push_candidate(&mut out, "model", "List or switch provider profiles");
    push_candidate(&mut out, "rename", "Rename a session");
    push_candidate(&mut out, "search", "Search saved messages");
    push_candidate(&mut out, "compact", "Summarize older messages");
    push_candidate(&mut out, "undo", "Revert the last turn's file edits");
    push_candidate(&mut out, "jobs", "List session and scheduled jobs");
    push_candidate(&mut out, "index", "Rebuild the semantic-search index");
    push_candidate(&mut out, "commands", "List your own prompt commands");
    push_candidate(&mut out, "delete", "Delete a session");
    push_candidate(&mut out, "stats", "Show current session usage");
    push_candidate(&mut out, "usage", "Show token usage by day and month");
    push_candidate(&mut out, "status", "Show project and connection status");
    push_candidate(&mut out, "mcp", "List MCP servers and their tools");
    push_candidate(&mut out, "memory", "List remembered facts");
    push_candidate(&mut out, "forget", "Forget a remembered fact");
    push_candidate(&mut out, "expand", "Expand the last transcript card");
    push_candidate(&mut out, "collapse", "Collapse the last transcript card");
    push_candidate(&mut out, "exit", "Save and quit");
    push_candidate(&mut out, "plan", "Enter Plan Mode");
    push_candidate(&mut out, "mode", "Cycle build / auto / plan (also Tab)");
    push_candidate(&mut out, "skills", "List discovered skills");
    push_candidate(&mut out, "warnings", "Hide/show warnings; details; fix");
    push_candidate(&mut out, "theme", "List or switch theme (also /themes)");
    push_candidate(&mut out, "themes", "List or switch theme");
    assert(text::views(out@) =~= builtin_candidates());
    out
}

/// A name is reserved for a built-in command, whatever its case and the space around it; some are
/// handled without being advertised.
pub open spec fn reserved(name: Seq<char>) -> bool {
    let n = scan::lower(scan::trimmed(name));
    builtin_names().contains(n) || n == "models"@ || n == "warning"@ || n == "themes"@
}

/// Whether a name is reserved for a built-in command.
pub fn is_builtin_command(name: &str) -> (r: bool)
    ensures
        r == reserved(name@),
{
    let inner = trim(name);
    let n = to_lower(inner.as_str());
    let all = builtins();
    let ghost names = builtin_names();
    let ghost offered = builtin_candidates();
    proof {
        lemma_builtin_candidates();
    }
    let mut i: usize = 0;
    while i < all.len()
        invariant
            i <= all.len(),
            text::views(all@) == offered,
            offered.len() == names.len(),
            forall|j: int| 0 <= j < names.len() ==> (#[trigger] offered[j]).name == names[j],
            names == builtin_names(),
            n@ == scan::lower(scan::trimmed(name@)),
            forall|j: int| 0 <= j < i ==> names[j] != n@,
        decreases all.len() - i,
    {
        assert(all@[i as int]@ == offered[i as int]);
        if same(all[i].name.as_str(), n.as_str()) {
            assert(names[i as int] == n@);
            return true;
        }
        i += 1;
    }
    same(n.as_str(), "models") || same(n.as_str(), "warning") || same(n.as_str(), "themes")
}

/// A word of nothing but lower-case letters.
pub open spec fn plain_word(s: Seq<char>) -> bool {
    forall|i: int| 0 <= i < s.len() ==> 'a' <= #[trigger] s[i] <= 'z'
}

pub proof fn lemma_plain_word(s: Seq<char>)
    requires
        plain_word(s),
    ensures
        scan::trimmed(s) == s,
        scan::lower(s) == s,
{
    let p = scan::white();
    if s.len() > 0 {
        assert('a' <= s[0] <= 'z');
        assert('a' <= s[s.len() - 1] <= 'z');
    }
    scan::lemma_span_unique(s, p, 0);
    assert(scan::trim_front(s, p) =~= s);
    scan::lemma_span_back_unique(s, p, 0);
    assert(scan::trim_back(s, p) =~= s);
    assert(scan::lower(s) =~= s);
}

/// Every advertised command's name is reserved, so that nothing of the user's can take its place.
pub proof fn law_every_builtin_is_reserved(i: int)
    requires
        0 <= i < builtin_names().len(),
    ensures
        reserved(builtin_names()[i]),
{
    let name = builtin_names()[i];
    lemma_builtins_are_plain();
    assert(plain_word(name));
    lemma_plain_word(name);
}

pub proof fn lemma_builtins_are_plain()
    ensures
        forall|i: int| 0 <= i < builtin_names().len() ==> plain_word(#[trigger] builtin_names()[i]),
{
    reveal_strlit("help");
    assert(plain_word("help"@));
    reveal_strlit("new");
    assert(plain_word("new"@));
    reveal_strlit("sessions");
    assert(plain_word("sessions"@));
    reveal_strlit("resume");
    assert(plain_word("resume"@));
    reveal_strlit("model");
    assert(plain_word("model"@));
    reveal_strlit("rename");
    assert(plain_word("rename"@));
    reveal_strlit("search");
    assert(plain_word("search"@));
    reveal_strlit("compact");
    assert(plain_word("compact"@));
    reveal_strlit("undo");
    assert(plain_word("undo"@));
    reveal_strlit("jobs");
    assert(plain_word("jobs"@));
    reveal_strlit("index");
    assert(plain_word("index"@));
    reveal_strlit("commands");
    assert(plain_word("commands"@));
    reveal_strlit("delete");
    assert(plain_word("delete"@));
    reveal_strlit("stats");
    assert(plain_word("stats"@));
    reveal_strlit("usage");
    assert(plain_word("usage"@));
    reveal_strlit("status");
    assert(plain_word("status"@));
    reveal_strlit("mcp");
    assert(plain_word("mcp"@));
    reveal_strlit("memory");
    assert(plain_word("memory"@));
    reveal_strlit("forget");
    assert(plain_word("forget"@));
    reveal_strlit("expand");
    assert(plain_word("expand"@));
    reveal_strlit("collapse");
    assert(plain_word("collapse"@));
    reveal_strlit("exit");
    assert(plain_word("exit"@));
    reveal_strlit("plan");
    assert(plain_word("plan"@));
    reveal_strlit("mode");
    assert(plain_word("mode"@));
    reveal_strlit("skills");
    assert(plain_word("skills"@));
    reveal_strlit("warnings");
    assert(plain_word("warnings"@));
    reveal_strlit("theme");
    assert(plain_word("theme"@));
    reveal_strlit("themes");
    assert(plain_word("themes"@));
}

pub proof fn lemma_builtins_are_short()
    ensures
        forall|i: int| 0 <= i < builtin_names().len() ==> (#[trigger] builtin_names()[i]).len() < 100,
{
    reveal_strlit("help");
    reveal_strlit("new");
    reveal_strlit("sessions");
    reveal_strlit("resume");
    reveal_strlit("model");
    reveal_strlit("rename");
    reveal_strlit("search");
    reveal_strlit("compact");
    reveal_strlit("undo");
    reveal_strlit("jobs");
    reveal_strlit("index");
    reveal_strlit("commands");
    reveal_strlit("delete");
    reveal_strlit("stats");
    reveal_strlit("usage");
    reveal_strlit("status");
    reveal_strlit("mcp");
    reveal_strlit("memory");
    reveal_strlit("forget");
    reveal_strlit("expand");
    reveal_strlit("collapse");
    reveal_strlit("exit");
    reveal_strlit("plan");
    reveal_strlit("mode");
    reveal_strlit("skills");
    reveal_strlit("warnings");
    reveal_strlit("theme");
    reveal_strlit("themes");
}

/// A command of the user's own.
#[derive(Debug)]
pub struct CustomCommand {
    pub name: String,
    pub description: Option<String>,
    /// Where the command comes from.
    pub source: String,
}

/// A skill that was found.
#[derive(Debug)]
pub struct Skill {
    pub name: String,
    pub description: String,
}

/// A command of the user's own as the menu offers it.
pub open spec fn command_candidate(command: CustomCommand) -> CandidateModel {
    CandidateModel {
        name: command.name@,
        description: match command.description {
            Some(description) => description@,
            None => "custom command ("@ + command.source@ + ")"@,
        },
    }
}

/// The skills that are not switched off, as the menu offers them.
pub open spec fn skill_candidates(skills: Seq<Skill>, disabled: Seq<Seq<char>>) -> Seq<CandidateModel>
    decreases skills.len(),
{
    if skills.len() == 0 {
        seq![]
    } else {
        let before = skill_candidates(skills.drop_last(), disabled);
        if disabled.contains(skills.last().name@) {
            before
        } else {
            before.push(
                CandidateModel {
                    name: skills.last().name@,
                    description: skills.last().description@,
                },
            )
        }
    }
}

/// All that the menu offers, in the order of the names.
pub open spec fn all_candidates(
    commands: Seq<CustomCommand>,
    skills: Seq<Skill>,
    disabled: Seq<Seq<char>>,
) -> Seq<CandidateModel> {
    order::sorted_by(
        builtin_candidates() + commands.map_values(|c: CustomCommand| command_candidate(c))
            + skill_candidates(skills, disabled),
        order::name_key::<Candidate>(),
    )
}

/// All that the menu offers: built-in commands, the user's own, and skills that are not switched
/// off, in the order of the names.
pub fn slash_candidates(commands: &[CustomCommand], skills: &[Skill], disabled: &[String]) -> (r: Vec<
    Candidate,
>)
    ensures
        text::views(r@) == all_candidates(commands@, skills@, text::views(disabled@)),
{
    let mut out = builtins();
    let ghost base = builtin_candidates();
    let ghost own = commands@.map_values(|c: CustomCommand| command_candidate(c));
    let mut i: usize = 0;
    while i < commands.len()
        invariant
            i <= commands.len(),
            own == commands@.map_values(|c: CustomCommand| command_candidate(c)),
            text::views(out@) =~= base + own.take(i as int),
        decreases commands.len() - i,
    {
        let command = &commands[i];
        let description = match &command.description {
            Some(description) => description.clone(),
            None => cat3("custom command (", command.source.as_str(), ")"),
        };
        out.push(Candidate { name: command.name.clone(), description });
        i += 1;
    }
    assert(own.take(i as int) =~= own);
    let ghost off = text::views(disabled@);
    let mut k: usize = 0;
    assert(base + own + skill_candidates(skills@.take(0), off) =~= base + own);
    while k < skills.len()
        invariant
            k <= skills.len(),
            off == text::views(disabled@),
            text::views(out@) == base + own + skill_candidates(skills@.take(k as int), off),
        decreases skills.len() - k,
    {
        let ghost before = text::views(out@);
        assert(skills@.take(k + 1).drop_last() =~= skills@.take(k as int));
        assert(skills@.take(k + 1).last() == skills@[k as int]);
        if !holds(disabled, skills[k].name.as_str()) {
            out.push(
                Candidate {
                    name: skills[k].name.clone(),
                    description: skills[k].description.clone(),
                },
            );
            assert(text::views(out@) =~= base + own + skill_candidates(
                skills@.take(k + 1),
                off,
            ));
        }
        k += 1;
    }
    assert(skills@.take(k as int) =~= skills@);
    sort_named(out)
}

/// The candidate's name begins with the needle, whatever the case.
pub open spec fn fits(candidate: CandidateModel, needle: Seq<char>) -> bool {
    scan::has_prefix(scan::lower(candidate.name), scan::lower(needle))
}

/// The candidates whose names begin with what was typed, whatever the case, in order.
pub fn filter_candidates<'a>(candidates: &'a [Candidate], needle: &str) -> (r: Vec<&'a Candidate>)
    ensures
        r@.map_values(|c: &Candidate| c@) == text::views(candidates@).filter(
            |c: CandidateModel| fits(c, needle@),
        ),
{
    let n = to_lower(needle);
    let ghost all = text::views(candidates@);
    let ghost keep = |c: CandidateModel| fits(c, needle@);
    let ghost see = |c: &Candidate| c@;
    let mut out: Vec<&'a Candidate> = Vec::new();
    let mut i: usize = 0;
    assert(all.take(0).filter(keep) =~= seq![]) by {
        reveal(Seq::filter);
    }
    assert(out@.map_values(see) =~= seq![]);
    while i < candidates.len()
        invariant
            i <= candidates.len(),
            all == text::views(candidates@),
            n@ == scan::lower(needle@),
            keep == (|c: CandidateModel| fits(c, needle@)),
            see == (|c: &Candidate| c@),
            out@.map_values(see) == all.take(i as int).filter(keep),
        decreases candidates.len() - i,
    {
        let ghost before = out@.map_values(see);
        proof {
            reveal(Seq::filter);
            assert(all.take(i + 1).drop_last() =~= all.take(i as int));
        }
        let name = to_lower(candidates[i].name.as_str());
        if starts_with(name.as_str(), n.as_str()) {
            out.push(&candidates[i]);
            assert(out@.map_values(see) =~= before.push(all[i as int]));
        }
        i += 1;
    }
    assert(all.take(i as int) =~= all);
    out
}

/// With nothing typed, every candidate is offered.
pub proof fn law_empty_needle_offers_all(candidate: CandidateModel)
    ensures
        fits(candidate, seq![]),
{
    let name = scan::lower(candidate.name);
    let none = scan::lower(seq![]);
    assert(none =~= seq![]);
    assert(name.subrange(0, 0) =~= none);
}

// ---------------------------------------------------------------------------------------------
// Cutting
// ---------------------------------------------------------------------------------------------

/// A text cut to `max` characters, the last of which is then an ellipsis, where there is room for
/// one.
pub open spec fn truncated(s: Seq<char>, max: nat) -> Seq<char> {
    if s.len() <= max {
        s
    } else if max == 0 {
        seq![]
    } else {
        s.take(max - 1) + "\u{2026}"@
    }
}

/// A text cut to `max` characters, the last of which is then an ellipsis.
pub fn truncate_chars(text: &str, max: usize) -> (r: String)
    ensures
        r@ == truncated(text@, max as nat),
{
    let chars = chars_of(text);
    if chars.len() <= max {
        return text.to_owned();
    }
    if max == 0 {
        let none = String::new();
        assert(none@ =~= seq![]);
        return none;
    }
    let cut = slice_text(&chars, 0, max - 1);
    assert(cut@ =~= text@.take(max - 1));
    cat(cut.as_str(), "\u{2026}")
}

/// A text cut to `max` characters from the left, the first of which is then an ellipsis.
pub open spec fn truncated_left(s: Seq<char>, max: nat) -> Seq<char> {
    if s.len() <= max {
        s
    } else if max == 0 {
        seq![]
    } else {
        "\u{2026}"@ + s.skip(s.len() - (max - 1))
    }
}

/// A text cut to `max` characters from the left, so that a long path keeps its last part.
pub fn truncate_left_chars(text: &str, max: usize) -> (r: String)
    ensures
        r@ == truncated_left(text@, max as nat),
{
    let chars = chars_of(text);
    if chars.len() <= max {
        return text.to_owned();
    }
    if max == 0 {
        let none = String::new();
        assert(none@ =~= seq![]);
        return none;
    }
    let from: usize = chars.len() - (max - 1);
    let kept = slice_text(&chars, from, chars.len());
    assert(kept@ =~= text@.skip(from as int));
    cat("\u{2026}", kept.as_str())
}

/// Cutting keeps to the given width, and never cuts what fits.
pub proof fn law_truncation_fits(s: Seq<char>, max: nat)
    ensures
        truncated(s, max).len() <= max,
        truncated_left(s, max).len() <= max,
        s.len() <= max ==> truncated(s, max) == s && truncated_left(s, max) == s,
{
    reveal_strlit("\u{2026}");
}

// ---------------------------------------------------------------------------------------------
// What is offered and shown
// ---------------------------------------------------------------------------------------------

/// Every skill that is not switched off is offered, in order, as it is described; one that is
/// switched off is not.
pub proof fn law_skills_are_offered_unless_off(
    first: Seq<Skill>,
    second: Seq<Skill>,
    skill: Skill,
    disabled: Seq<Seq<char>>,
)
    ensures
        skill_candidates(first + second, disabled) == skill_candidates(first, disabled)
            + skill_candidates(second, disabled),
        disabled.contains(skill.name@) ==> skill_candidates(seq![skill], disabled).len() == 0,
        !disabled.contains(skill.name@) ==> skill_candidates(seq![skill], disabled).len() == 1
            && skill_candidates(seq![skill], disabled)[0].name == skill.name@ && skill_candidates(
            seq![skill],
            disabled,
        )[0].description == skill.description@,
    decreases second.len(),
{
    reveal_with_fuel(skill_candidates, 2);
    assert(seq![skill].drop_last() =~= seq![]);
    if second.len() == 0 {
        assert(first + second =~= first);
        assert(skill_candidates(first, disabled) + skill_candidates(second, disabled)
            =~= skill_candidates(first, disabled));
    } else {
        law_skills_are_offered_unless_off(first, second.drop_last(), skill, disabled);
        assert((first + second).drop_last() =~= first + second.drop_last());
        assert((first + second).last() == second.last());
        assert(skill_candidates(first + second, disabled) =~= skill_candidates(first, disabled)
            + skill_candidates(second, disabled));
    }
}

/// Everything that a slash can begin is offered, in the order of the names: every built-in command,
/// every command of the user's own and every skill that is not switched off, and nothing else.
pub proof fn law_everything_is_offered_in_order(
    commands: Seq<CustomCommand>,
    skills: Seq<Skill>,
    disabled: Seq<Seq<char>>,
    i: int,
    candidate: CandidateModel,
)
    ensures
        ({
            let all = all_candidates(commands, skills, disabled);
            &&& 0 <= i < builtin_names().len() ==> exists|k: int|
                0 <= k < all.len() && (#[trigger] all[k]).name == builtin_names()[i]
            &&& 0 <= i < commands.len() ==> exists|k: int|
                0 <= k < all.len() && (#[trigger] all[k]).name == commands[i].name@ && (
                commands[i].description matches Some(words) ==> all[k].description == words@)
            &&& all.contains(candidate) <==> builtin_candidates().contains(candidate) || (exists|k: int|
                0 <= k < commands.len() && candidate == #[trigger] command_candidate(commands[k]))
                || skill_candidates(skills, disabled).contains(candidate)
            &&& all.len() == builtin_names().len() + commands.len() + skill_candidates(
                skills,
                disabled,
            ).len()
            &&& order::sorted(order::keys(all, order::name_key::<Candidate>()))
        }),
{
    let all = all_candidates(commands, skills, disabled);
    let key = order::name_key::<Candidate>();
    let own = commands.map_values(|c: CustomCommand| command_candidate(c));
    let front = builtin_candidates() + own;
    let loose = front + skill_candidates(skills, disabled);
    order::law_sorted_by(loose, key);
    order::lemma_same_items(loose, key, candidate);
    if builtin_candidates().contains(candidate) {
        let k = builtin_candidates().index_of(candidate);
        assert(loose[k] == candidate);
    }
    if exists|k: int| 0 <= k < commands.len() && candidate == #[trigger] command_candidate(commands[k]) {
        let k = choose|k: int|
            0 <= k < commands.len() && candidate == #[trigger] command_candidate(commands[k]);
        assert(own[k] == candidate);
        assert(loose[builtin_candidates().len() + k] == candidate);
    }
    if skill_candidates(skills, disabled).contains(candidate) {
        let k = skill_candidates(skills, disabled).index_of(candidate);
        assert(loose[front.len() + k] == candidate);
    }
    if loose.contains(candidate) {
        let k = loose.index_of(candidate);
        if k < builtin_candidates().len() {
            assert(builtin_candidates()[k] == candidate);
        } else if k < front.len() {
            assert(own[k - builtin_candidates().len()] == candidate);
            assert(candidate == command_candidate(commands[k - builtin_candidates().len()]));
        } else {
            assert(skill_candidates(skills, disabled)[k - front.len()] == candidate);
        }
    }
    if 0 <= i < builtin_names().len() {
        let one = builtin_candidates()[i];
        assert(loose[i] == one);
        order::lemma_same_items(loose, key, one);
        let k = all.index_of(one);
        assert(all[k] == one);
    }
    if 0 <= i < commands.len() {
        let one = command_candidate(commands[i]);
        assert(own[i] == one);
        assert(loose[builtin_candidates().len() + i] == one);
        order::lemma_same_items(loose, key, one);
        let k = all.index_of(one);
        assert(all[k] == one);
    }
}

/// What was typed offers every name that begins with it, in whatever case, and no other.
pub proof fn law_typing_narrows_by_the_front(candidate: CandidateModel, needle: Seq<char>, n: int)
    requires
        0 <= n <= candidate.name.len(),
    ensures
        fits(candidate, candidate.name.take(n)),
        fits(candidate, scan::lower(candidate.name.take(n))),
        needle.len() > candidate.name.len() ==> !fits(candidate, needle),
        fits(candidate, needle) ==> scan::lower(candidate.name.take(needle.len() as int))
            == scan::lower(needle),
{
    let name = candidate.name;
    assert(scan::lower(name).subrange(0, n) =~= scan::lower(name.take(n)));
    assert(scan::lower(scan::lower(name.take(n))) =~= scan::lower(name.take(n)));
    if fits(candidate, needle) {
        assert(scan::lower(name).subrange(0, needle.len() as int) =~= scan::lower(
            name.take(needle.len() as int),
        ));
    }
}

/// What is cut keeps its front, or its end where it is cut on the left, and shows that it was cut.
pub proof fn law_truncation_keeps_an_end(s: Seq<char>, max: nat)
    requires
        s.len() > max,
        max > 0,
    ensures
        truncated(s, max).len() == max,
        truncated(s, max).take(max - 1) == s.take(max - 1),
        truncated(s, max).last() == '\u{2026}',
        truncated_left(s, max).len() == max,
        truncated_left(s, max).skip(1) == s.skip(s.len() - (max - 1)),
        truncated_left(s, max)[0] == '\u{2026}',
{
    reveal_strlit("\u{2026}");
    assert(truncated(s, max).take(max - 1) =~= s.take(max - 1));
    assert(truncated_left(s, max).skip(1) =~= s.skip(s.len() - (max - 1)));
}

} // verus!
