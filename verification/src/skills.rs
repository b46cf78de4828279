//! Skills and custom commands: their listings, and what a repair of broken skills achieved.
use crate::number;
use crate::number::{count, pad_right};
use crate::scan;
use crate::scan::{find_chars, to_lower};
use crate::split;
use crate::split::join;
use crate::text;
use crate::text::{cat, cat3, chars_of, holds, same, slice_text};
use crate::tui;
use crate::tui::{truncate_chars, CustomCommand};
use vstd::prelude::*;
use vstd::string::*;

verus! {

broadcast use crate::text::group_views;

// ---------------------------------------------------------------------------------------------
// Repairs
// ---------------------------------------------------------------------------------------------

/// A warning up to where it begins to give the reason.
pub open spec fn folder_in(warning: Seq<char>) -> Seq<char> {
    match scan::first_at(warning, " is missing"@) {
        Some(i) => warning.take(i),
        None => match scan::first_at(warning, " could not be read"@) {
            Some(i) => warning.take(i),
            None => match scan::first_at(warning, " is invalid"@) {
                Some(i) => warning.take(i),
                None => warning,
            },
        },
    }
}

fn before_marker(chars: &[char], marker: &str) -> (r: Option<String>)
    ensures
        text::opt_view(r) == match scan::first_at(chars@, marker@) {
            Some(i) => Some(chars@.take(i)),
            None => None,
        },
{
    let pattern = chars_of(marker);
    match find_chars(chars, &pattern, 0) {
        Some(i) => {
            let front = slice_text(chars, 0, i);
            assert(front@ =~= chars@.take(i as int));
            Some(front)
        },
        None => None,
    }
}

/// Which folder a warning is about, without the reason: a folder that fails for another reason has
/// not been repaired.
pub fn skill_warning_key(warning: &str) -> (r: String)
    ensures
        r@ == folder_in(warning@),
{
    let chars = chars_of(warning);
    if let Some(front) = before_marker(&chars, " is missing") {
        return front;
    }
    if let Some(front) = before_marker(&chars, " could not be read") {
        return front;
    }
    if let Some(front) = before_marker(&chars, " is invalid") {
        return front;
    }
    warning.to_owned()
}

/// The folders that some warnings are about.
pub open spec fn folders(warnings: Seq<Seq<char>>) -> Set<Seq<char>> {
    warnings.map_values(|warning: Seq<char>| folder_in(warning)).to_set()
}

fn distinct_folders(warnings: &[String]) -> (r: Vec<String>)
    ensures
        text::views(r@).no_duplicates(),
        text::views(r@).to_set() == folders(text::views(warnings@)),
{
    let ghost all = text::views(warnings@);
    let ghost named = all.map_values(|warning: Seq<char>| folder_in(warning));
    let mut out: Vec<String> = Vec::new();
    let mut i: usize = 0;
    assert(text::views(out@).to_set() =~= named.take(0).to_set());
    while i < warnings.len()
        invariant
            i <= warnings.len(),
            all == text::views(warnings@),
            named == all.map_values(|warning: Seq<char>| folder_in(warning)),
            text::views(out@).no_duplicates(),
            text::views(out@).to_set() == named.take(i as int).to_set(),
        decreases warnings.len() - i,
    {
        let key = skill_warning_key(warnings[i].as_str());
        let ghost before = text::views(out@);
        let ghost shorter = named.take(i as int);
        let ghost longer = named.take(i + 1);
        assert(key@ == named[i as int]);
        assert(longer =~= shorter.push(key@));
        proof {
            shorter.lemma_push_to_set_commute(key@);
            before.lemma_push_to_set_commute(key@);
        }
        if !holds(&out, key.as_str()) {
            let ghost model = key@;
            out.push(key);
            assert(text::views(out@) == before.push(model));
        } else {
            assert(before.to_set().contains(key@));
            assert(before.to_set().insert(key@) =~= before.to_set());
        }
        i += 1;
    }
    assert(named.take(i as int) =~= named);
    out
}

fn count_missing(list: &[String], other: &[String]) -> (r: usize)
    requires
        text::views(list@).no_duplicates(),
    ensures
        r == text::views(list@).to_set().difference(text::views(other@).to_set()).len(),
{
    let ghost all = text::views(list@);
    let ghost rest = text::views(other@);
    let ghost mut left: Seq<Seq<char>> = seq![];
    let mut n: usize = 0;
    let mut i: usize = 0;
    assert(left.to_set() =~= all.take(0).to_set().difference(rest.to_set()));
    while i < list.len()
        invariant
            i <= list.len(),
            all == text::views(list@),
            rest == text::views(other@),
            all.no_duplicates(),
            n == left.len(),
            n <= i,
            left.no_duplicates(),
            left.to_set() == all.take(i as int).to_set().difference(rest.to_set()),
        decreases list.len() - i,
    {
        let ghost shorter = all.take(i as int);
        let ghost item = all[i as int];
        assert(all.take(i + 1) =~= shorter.push(item));
        proof {
            shorter.lemma_push_to_set_commute(item);
            left.lemma_push_to_set_commute(item);
        }
        if !holds(other, list[i].as_str()) {
            proof {
                assert(!shorter.to_set().contains(item)) by {
                    if shorter.to_set().contains(item) {
                        let j = choose|j: int| 0 <= j < shorter.len() && shorter[j] == item;
                        assert(all[j] == all[i as int]);
                    }
                }
                assert(!left.contains(item)) by {
                    if left.contains(item) {
                        assert(left.to_set().contains(item));
                    }
                }
                assert(!rest.to_set().contains(item));
                assert(left.push(item).to_set() =~= all.take(i + 1).to_set().difference(
                    rest.to_set(),
                ));
                left = left.push(item);
            }
            n += 1;
        } else {
            assert(rest.to_set().contains(item));
            assert(left.to_set() =~= all.take(i + 1).to_set().difference(rest.to_set()));
        }
        i += 1;
    }
    assert(all.take(i as int) =~= all);
    proof {
        left.unique_seq_to_set();
    }
    n
}

/// What a repair achieved, measured by loading the skills again.
#[derive(Debug)]
pub struct SkillFixReport {
    pub summary: String,
    /// The warning that is left, where anything still fails.
    pub banner: Option<String>,
}

/// What is told of a repair.
pub open spec fn fix_summary(before: Seq<Seq<char>>, after: Seq<Seq<char>>) -> Seq<char> {
    let was = folders(before);
    let is = folders(after);
    let repaired = was.difference(is).len();
    let broke = is.difference(was).len();
    let first = if repaired == 0 {
        "Skill repair: nothing fixed \u{2014} "@ + number::decimal(is.len()) + " of "@
            + number::decimal(was.len()) + " folder(s) still fail to load."@
    } else if is.len() == 0 {
        "Skill repair: all "@ + number::decimal(repaired)
            + " folder(s) now load. Restart Kamui to use them."@
    } else {
        "Skill repair: "@ + number::decimal(repaired) + " of "@ + number::decimal(was.len())
            + " folder(s) fixed, "@ + number::decimal(is.len()) + " still failing."@
    };
    let broken = if broke > 0 {
        " "@ + number::decimal(broke) + " folder(s) newly broken \u{2014} /warnings details."@
    } else {
        seq![]
    };
    let rest = if is.len() > 0 {
        " /warnings details lists what is left."@
    } else {
        seq![]
    };
    first + broken + rest
}

/// The warning while some skills fail.
pub open spec fn skipped_banner(n: nat) -> Seq<char> {
    number::decimal(n)
        + " skill folder(s) skipped (invalid name or frontmatter) \u{2014} /warnings details, /warnings fix"@
}

/// The warning while some skills fail.
pub fn warning_banner(n: usize) -> (r: String)
    ensures
        r@ == skipped_banner(n as nat),
{
    let digits = count(n);
    cat(
        digits.as_str(),
        " skill folder(s) skipped (invalid name or frontmatter) \u{2014} /warnings details, /warnings fix",
    )
}

/// What a repair achieved: how many folders load now that did not, and how many that did do not any
/// more.
pub fn skill_fix_report(before: &[String], after: &[String]) -> (r: SkillFixReport)
    ensures
        r.summary@ == fix_summary(text::views(before@), text::views(after@)),
        text::opt_view(r.banner) == if after@.len() > 0 {
            Some(skipped_banner(after@.len()))
        } else {
            None
        },
{
    let was = distinct_folders(before);
    let is = distinct_folders(after);
    proof {
        text::views(was@).unique_seq_to_set();
        text::views(is@).unique_seq_to_set();
    }
    let repaired = count_missing(&was, &is);
    let broke = count_missing(&is, &was);
    let was_count = count(was.len());
    let is_count = count(is.len());
    let repaired_count = count(repaired);
    let mut summary = if repaired == 0 {
        let mut out = cat3(
            "Skill repair: nothing fixed \u{2014} ",
            is_count.as_str(),
            " of ",
        );
        out.append(was_count.as_str());
        out.append(" folder(s) still fail to load.");
        out
    } else if is.len() == 0 {
        cat3(
            "Skill repair: all ",
            repaired_count.as_str(),
            " folder(s) now load. Restart Kamui to use them.",
        )
    } else {
        let mut out = cat3("Skill repair: ", repaired_count.as_str(), " of ");
        out.append(was_count.as_str());
        out.append(" folder(s) fixed, ");
        out.append(is_count.as_str());
        out.append(" still failing.");
        out
    };
    let mut broken = String::new();
    assert(broken@ =~= seq![]);
    if broke > 0 {
        let n = count(broke);
        broken = cat3(" ", n.as_str(), " folder(s) newly broken \u{2014} /warnings details.");
    }
    summary.append(broken.as_str());
    let mut rest = String::new();
    assert(rest@ =~= seq![]);
    if is.len() > 0 {
        rest = " /warnings details lists what is left.".to_owned();
    }
    summary.append(rest.as_str());
    let banner = if after.len() > 0 {
        Some(warning_banner(after.len()))
    } else {
        None
    };
    SkillFixReport { summary, banner }
}

/// A folder that fails for another reason has not been repaired: while every folder that failed
/// still fails, nothing counts as fixed, whatever the reasons are.
pub proof fn law_failing_folders_are_not_fixed(before: Seq<Seq<char>>, after: Seq<Seq<char>>)
    requires
        folders(before).subset_of(folders(after)),
    ensures
        folders(before).difference(folders(after)).len() == 0,
{
    assert(folders(before).difference(folders(after)) =~= Set::<Seq<char>>::empty());
}

/// The request for a repair.
pub open spec fn fix_prompt_of(warnings: Seq<Seq<char>>) -> Seq<char> {
    "Kamui's skill loader rejected these skill folders:\n- "@ + split::joined(warnings, "\n- "@)
        + "\n\nInspect each path, repair the folder name and SKILL.md frontmatter (name + description required, lowercase-dash folder), and verify the loader would accept them. Do not delete skills unless they are clearly junk."@
}

/// What `/warnings` asks for.
#[derive(Debug)]
pub enum WarningsAction {
    /// Show them where they are hidden, and the other way round.
    Toggle,
    Details,
    Collapse,
    /// There is nothing to repair.
    NothingToFix,
    /// Ask the model for a repair.
    Fix(String),
    /// No such thing.
    Usage(String),
}

/// Take in the argument of `/warnings`.
pub fn warnings_action(argument: &str, warnings: &[String]) -> (r: WarningsAction)
    ensures
        ({
            let a = scan::lower(argument@);
            match r {
                WarningsAction::Toggle => a.len() == 0,
                WarningsAction::Details => a == "details"@ || a == "expand"@,
                WarningsAction::Collapse => a == "collapse"@,
                WarningsAction::NothingToFix => a == "fix"@ && split::joined(
                    text::views(warnings@),
                    "\n- "@,
                ).len() == 0,
                WarningsAction::Fix(prompt) => a == "fix"@ && split::joined(
                    text::views(warnings@),
                    "\n- "@,
                ).len() > 0 && prompt@ == fix_prompt_of(text::views(warnings@)),
                WarningsAction::Usage(words) => a.len() > 0 && a != "details"@ && a != "expand"@ && a
                    != "collapse"@ && a != "fix"@ && words@
                    == "usage: /warnings [on|off|details|fix] (got \""@ + a + "\")"@,
            }
        }),
{
    proof {
        reveal_strlit("details");
        reveal_strlit("expand");
        reveal_strlit("collapse");
        reveal_strlit("fix");
        assert("details"@[0] == 'd');
        assert("expand"@[0] == 'e');
        assert("collapse"@[0] == 'c');
        assert("fix"@[0] == 'f');
    }
    let a = to_lower(argument);
    if a.as_str().is_empty() {
        return WarningsAction::Toggle;
    }
    if same(a.as_str(), "details") || same(a.as_str(), "expand") {
        return WarningsAction::Details;
    }
    if same(a.as_str(), "collapse") {
        return WarningsAction::Collapse;
    }
    if same(a.as_str(), "fix") {
        let details = join(warnings, "\n- ");
        if details.as_str().is_empty() {
            return WarningsAction::NothingToFix;
        }
        let mut prompt = cat(
            "Kamui's skill loader rejected these skill folders:\n- ",
            details.as_str(),
        );
        prompt.append(
            "\n\nInspect each path, repair the folder name and SKILL.md frontmatter (name + description required, lowercase-dash folder), and verify the loader would accept them. Do not delete skills unless they are clearly junk.",
        );
        return WarningsAction::Fix(prompt);
    }
    WarningsAction::Usage(
        cat3("usage: /warnings [on|off|details|fix] (got \"", a.as_str(), "\")"),
    )
}

// ---------------------------------------------------------------------------------------------
// Listings
// ---------------------------------------------------------------------------------------------

/// A skill as it is listed.
#[derive(Debug)]
pub struct SkillEntry {
    pub name: String,
    pub description: String,
    /// Where the skill comes from.
    pub badge: String,
    pub allowed_tools: Option<String>,
}

/// How much of a description a line of a terminal has room for.
pub open spec fn room(width: nat) -> nat {
    if width < 60 {
        20
    } else if width > 100 {
        60
    } else {
        (width - 40) as nat
    }
}

/// One skill in a row.
pub open spec fn skill_row(skill: SkillEntry, disabled: Seq<Seq<char>>, width: nat) -> Seq<char> {
    let state = if disabled.contains(skill.name@) {
        "[disabled]"@
    } else {
        "[enabled] "@
    };
    let tools = match skill.allowed_tools {
        Some(tools) => " [tools: "@ + tools@ + "]"@,
        None => seq![],
    };
    "  "@ + state + " /"@ + number::padded_right(skill.name@, 18) + " "@ + number::padded_right(
        skill.badge@,
        18,
    ) + " "@ + tui::truncated(skill.description@, room(width)) + tools + "\n"@
}

/// Each skill in a row.
pub open spec fn skill_rows(skills: Seq<SkillEntry>, disabled: Seq<Seq<char>>, width: nat) -> Seq<char>
    decreases skills.len(),
{
    if skills.len() == 0 {
        seq![]
    } else {
        skill_rows(skills.drop_last(), disabled, width) + skill_row(skills.last(), disabled, width)
    }
}

/// Each warning in a line, with a mark in front.
pub open spec fn warning_lines(warnings: Seq<Seq<char>>, mark: Seq<char>) -> Seq<char>
    decreases warnings.len(),
{
    if warnings.len() == 0 {
        seq![]
    } else {
        warning_lines(warnings.drop_last(), mark) + mark + warnings.last() + "\n"@
    }
}

/// How to make a skill.
pub const NO_SKILLS: &'static str = "No skills discovered.\nCreate a skill as a folder with SKILL.md:\n  <project>/.kamui/skills/my-skill/SKILL.md  ->  /my-skill  (project)\n  <config dir>/kamui/skills/my-skill/SKILL.md ->  /my-skill  (global)\nCompat: .agents/skills is also scanned. Use /skill:<name> if a skill collides with a built-in or command.\n\n";

/// The listing of skills.
pub open spec fn skills_report(
    skills: Seq<SkillEntry>,
    warnings: Seq<Seq<char>>,
    disabled: Seq<Seq<char>>,
    width: nat,
) -> Seq<char> {
    if skills.len() == 0 {
        NO_SKILLS@ + warning_lines(warnings, "  warning: "@) + (if warnings.len() > 0 {
            "\n"@
        } else {
            seq![]
        })
    } else {
        "Skills (eager: name+description in prompt, body on /<skill> or /skill:<name>):\n"@
            + skill_rows(skills, disabled, width) + (if warnings.len() > 0 {
            "\nWarnings (invalid skills skipped):\n"@ + warning_lines(warnings, "  - "@)
        } else {
            seq![]
        })
            + "\nInvoke with /<skill-name> or /skill:<name> (namespaced, wins over collisions).\n\n"@
    }
}

fn write_warnings(warnings: &[String], mark: &str) -> (r: String)
    ensures
        r@ == warning_lines(text::views(warnings@), mark@),
{
    let ghost all = text::views(warnings@);
    let mut out = String::new();
    let mut i: usize = 0;
    assert(out@ =~= seq![]);
    while i < warnings.len()
        invariant
            i <= warnings.len(),
            all == text::views(warnings@),
            out@ == warning_lines(all.take(i as int), mark@),
        decreases warnings.len() - i,
    {
        assert(all.take(i + 1).drop_last() =~= all.take(i as int));
        assert(all.take(i + 1).last() == warnings@[i as int]@);
        out.append(mark);
        out.append(warnings[i].as_str());
        out.append("\n");
        i += 1;
    }
    assert(all.take(i as int) =~= all);
    out
}

fn write_skills(skills: &[SkillEntry], disabled: &[String], width: usize) -> (r: String)
    ensures
        r@ == skill_rows(skills@, text::views(disabled@), width as nat),
{
    let most: usize = if width < 60 {
        20
    } else if width > 100 {
        60
    } else {
        width - 40
    };
    let mut out = String::new();
    let mut i: usize = 0;
    assert(out@ =~= seq![]);
    while i < skills.len()
        invariant
            i <= skills.len(),
            most == room(width as nat),
            out@ == skill_rows(skills@.take(i as int), text::views(disabled@), width as nat),
        decreases skills.len() - i,
    {
        assert(skills@.take(i + 1).drop_last() =~= skills@.take(i as int));
        assert(skills@.take(i + 1).last() == skills@[i as int]);
        let skill = &skills[i];
        let state = if holds(disabled, skill.name.as_str()) {
            "[disabled]"
        } else {
            "[enabled] "
        };
        let name = pad_right(skill.name.as_str(), 18);
        let badge = pad_right(skill.badge.as_str(), 18);
        let about = truncate_chars(skill.description.as_str(), most);
        let mut tools = String::new();
        assert(tools@ =~= seq![]);
        if let Some(list) = &skill.allowed_tools {
            tools = cat3(" [tools: ", list.as_str(), "]");
        }
        let mut row = cat3("  ", state, " /");
        row.append(name.as_str());
        row.append(" ");
        row.append(badge.as_str());
        row.append(" ");
        row.append(about.as_str());
        row.append(tools.as_str());
        row.append("\n");
        assert(row@ == skill_row(*skill, text::views(disabled@), width as nat));
        out.append(row.as_str());
        i += 1;
    }
    assert(skills@.take(i as int) =~= skills@);
    out
}

/// The listing of skills, for a terminal of the given width, appended to `out`.
pub fn print_skills(
    skills: &[SkillEntry],
    warnings: &[String],
    disabled: &[String],
    width: usize,
    out: &mut String,
)
    ensures
        final(out)@ == old(out)@ + skills_report(
            skills@,
            text::views(warnings@),
            text::views(disabled@),
            width as nat,
        ),
{
    let mut doc: String;
    if skills.len() == 0 {
        let lines = write_warnings(warnings, "  warning: ");
        doc = cat(NO_SKILLS, lines.as_str());
        if warnings.len() > 0 {
            doc.append("\n");
        } else {
            assert(doc@ + seq![] =~= doc@);
        }
    } else {
        let rows = write_skills(skills, disabled, width);
        doc = cat(
            "Skills (eager: name+description in prompt, body on /<skill> or /skill:<name>):\n",
            rows.as_str(),
        );
        let mut tail = String::new();
        assert(tail@ =~= seq![]);
        if warnings.len() > 0 {
            let lines = write_warnings(warnings, "  - ");
            tail = cat("\nWarnings (invalid skills skipped):\n", lines.as_str());
        }
        doc.append(tail.as_str());
        doc.append(
            "\nInvoke with /<skill-name> or /skill:<name> (namespaced, wins over collisions).\n\n",
        );
    }
    out.append(doc.as_str());
}

/// How to make a command.
pub const NO_COMMANDS: &'static str = "No custom commands yet.\nAdd a markdown file to create one:\n  <project>/.kamui/commands/review.md  ->  /review   (this project only)\n  <config dir>/kamui/commands/review.md ->  /review   (every project)\n\n";

/// Each command in a row.
pub open spec fn command_rows(commands: Seq<CustomCommand>) -> Seq<char>
    decreases commands.len(),
{
    if commands.len() == 0 {
        "Your commands:\n"@
    } else {
        let command = commands.last();
        command_rows(commands.drop_last()) + "  /"@ + number::padded_right(command.name@, 18)
            + " "@ + number::padded_right(command.source@, 9) + " "@
            + (match command.description {
            Some(description) => description@,
            None => seq![],
        }) + "\n"@
    }
}

/// The listing of commands.
pub open spec fn commands_report(commands: Seq<CustomCommand>) -> Seq<char> {
    if commands.len() == 0 {
        NO_COMMANDS@
    } else {
        command_rows(commands)
            + "\nInvoke one with /<name>; anything after it is appended to the prompt.\n\n"@
    }
}

/// The listing of the user's own commands, or how to make one, appended to `out`.
pub fn print_commands(commands: &[CustomCommand], out: &mut String)
    ensures
        final(out)@ == old(out)@ + commands_report(commands@),
{
    if commands.len() == 0 {
        out.append(NO_COMMANDS);
        return;
    }
    let mut doc = "Your commands:\n".to_owned();
    let mut i: usize = 0;
    while i < commands.len()
        invariant
            i <= commands.len(),
            doc@ == command_rows(commands@.take(i as int)),
        decreases commands.len() - i,
    {
        assert(commands@.take(i + 1).drop_last() =~= commands@.take(i as int));
        assert(commands@.take(i + 1).last() == commands@[i as int]);
        let command = &commands[i];
        let name = pad_right(command.name.as_str(), 18);
        let source = pad_right(command.source.as_str(), 9);
        let mut about = String::new();
        assert(about@ =~= seq![]);
        if let Some(description) = &command.description {
            about = description.clone();
        }
        doc.append("  /");
        doc.append(name.as_str());
        doc.append(" ");
        doc.append(source.as_str());
        doc.append(" ");
        doc.append(about.as_str());
        doc.append("\n");
        i += 1;
    }
    assert(commands@.take(i as int) =~= commands@);
    doc.append("\nInvoke one with /<name>; anything after it is appended to the prompt.\n\n");
    out.append(doc.as_str());
}

// ---------------------------------------------------------------------------------------------
// What is told of skills
// ---------------------------------------------------------------------------------------------

/// Every rejected folder is named in the request to repair it, its warning whole.
#[verifier::rlimit(50)]
pub proof fn law_repairs_name_every_folder(warnings: Seq<Seq<char>>, i: int)
    requires
        0 <= i < warnings.len(),
    ensures
        text::stands_in(fix_prompt_of(warnings), warnings[i]),
{
    broadcast use text::group_stands;

    split::law_joining_keeps_every_part(warnings, warnings, "\n- "@);
}

/// Of a warning the folder is kept as it is, whatever is said of it.
pub proof fn law_warnings_are_known_by_their_folder(warning: Seq<char>)
    ensures
        folder_in(warning).is_prefix_of(warning),
        scan::first_at(warning, " is missing"@) is None && scan::first_at(
            warning,
            " could not be read"@,
        ) is None && scan::first_at(warning, " is invalid"@) is None ==> folder_in(warning)
            == warning,
        scan::first_at(warning, " is missing"@) matches Some(i) ==> folder_in(warning)
            + " is missing"@ == warning.take(i + " is missing"@.len()),
{
    scan::lemma_find_from(warning, " is missing"@, 0);
    scan::lemma_find_from(warning, " could not be read"@, 0);
    scan::lemma_find_from(warning, " is invalid"@, 0);
    if let Some(i) = scan::first_at(warning, " is missing"@) {
        let n = " is missing"@.len();
        assert(warning.subrange(i, i + n) == " is missing"@);
        assert(warning.take(i + n) =~= warning.take(i) + warning.subrange(i, i + n));
    }
}

/// Every skill has its row, with its name, where it comes from, the tools it may use and whether it
/// is on.
#[verifier::rlimit(50)]
pub proof fn law_every_skill_has_a_row(
    skills: Seq<SkillEntry>,
    disabled: Seq<Seq<char>>,
    width: nat,
    i: int,
)
    requires
        0 <= i < skills.len(),
    ensures
        ({
            let rows = skill_rows(skills, disabled, width);
            &&& disabled.contains(skills[i].name@) ==> text::stands_in(
                rows,
                "[disabled]"@ + " /"@ + skills[i].name@,
            )
            &&& !disabled.contains(skills[i].name@) ==> text::stands_in(
                rows,
                "[enabled] "@ + " /"@ + skills[i].name@,
            )
            &&& text::stands_in(rows, skills[i].badge@)
            &&& text::stands_in(rows, tui::truncated(skills[i].description@, room(width)))
            &&& skills[i].allowed_tools matches Some(tools) ==> text::stands_in(
                rows,
                " [tools: "@ + tools@ + "]"@,
            )
            &&& skill_rows(skills.take(i), disabled, width).is_prefix_of(rows)
        }),
    decreases skills.len(),
{
    let rows = skill_rows(skills, disabled, width);
    let front = skills.drop_last();
    let before = skill_rows(front, disabled, width);
    let row = skill_row(skills.last(), disabled, width);
    let skill = skills[i];
    assert(rows == before + row);
    let on = "[enabled] "@ + " /"@ + skill.name@;
    let off = "[disabled]"@ + " /"@ + skill.name@;
    let told = tui::truncated(skill.description@, room(width));
    if i < front.len() {
        law_every_skill_has_a_row(front, disabled, width, i);
        assert(front[i] == skills[i]);
        assert(front.take(i) =~= skills.take(i));
    } else {
        assert(skills.take(i) =~= front);
        let state = if disabled.contains(skill.name@) {
            "[disabled]"@
        } else {
            "[enabled] "@
        };
        let named = state + " /"@ + skill.name@;
        let space = number::repeated(' ', number::missing(skill.name@, 18));
        let tools = match skill.allowed_tools {
            Some(tools) => " [tools: "@ + tools@ + "]"@,
            None => seq![],
        };
        assert(row =~= "  "@ + named + space + " "@ + number::padded_right(skill.badge@, 18) + " "@
            + told + tools + "\n"@);
        assert(text::stands_in(row, named)) by {
            broadcast use text::group_stands;

        }
        assert(text::stands_in(row, skill.badge@)) by {
            broadcast use text::group_stands;

        }
        assert(text::stands_in(row, told)) by {
            broadcast use text::group_stands;

        }
        assert(text::stands_in(row, tools)) by {
            broadcast use text::group_stands;

        }
    }
    assert(text::stands_in(before, on) || text::stands_in(row, on) ==> text::stands_in(rows, on)) by {
        broadcast use text::lemma_stands_added;

    }
    assert(text::stands_in(before, off) || text::stands_in(row, off) ==> text::stands_in(rows, off)) by {
        broadcast use text::lemma_stands_added;

    }
    assert(text::stands_in(rows, skill.badge@)) by {
        broadcast use text::lemma_stands_added;

    }
    assert(text::stands_in(rows, told)) by {
        broadcast use text::lemma_stands_added;

    }
    if let Some(tools) = skill.allowed_tools {
        assert(text::stands_in(rows, " [tools: "@ + tools@ + "]"@)) by {
            text::lemma_stands_added(before, row, " [tools: "@ + tools@ + "]"@);
        }
    }
}

/// Every warning is listed, whole and on a line of its own, whether there are skills or not.
#[verifier::rlimit(50)]
pub proof fn law_every_warning_is_listed(
    skills: Seq<SkillEntry>,
    warnings: Seq<Seq<char>>,
    disabled: Seq<Seq<char>>,
    width: nat,
    i: int,
)
    requires
        0 <= i < warnings.len(),
    ensures
        text::stands_in(skills_report(skills, warnings, disabled, width), warnings[i] + "\n"@),
        skills.len() > 0 ==> text::stands_in(
            skills_report(skills, warnings, disabled, width),
            skill_rows(skills, disabled, width),
        ),
{
    lemma_warning_stands(warnings, "  warning: "@, i);
    lemma_warning_stands(warnings, "  - "@, i);
    broadcast use text::group_stands;

}

#[verifier::rlimit(50)]
proof fn lemma_warning_stands(warnings: Seq<Seq<char>>, mark: Seq<char>, i: int)
    requires
        0 <= i < warnings.len(),
    ensures
        text::stands_in(warning_lines(warnings, mark), warnings[i] + "\n"@),
    decreases warnings.len(),
{
    let front = warnings.drop_last();
    let last = warnings.last() + "\n"@;
    assert(warning_lines(warnings, mark) =~= warning_lines(front, mark) + mark + last);
    if i < front.len() {
        lemma_warning_stands(front, mark, i);
        assert(front[i] == warnings[i]);
    }
    broadcast use text::group_stands;

}

/// Every command of the user's own is listed, with its name and what it is for.
#[verifier::rlimit(50)]
pub proof fn law_every_command_is_listed(commands: Seq<CustomCommand>, i: int)
    requires
        0 <= i < commands.len(),
    ensures
        text::stands_in(command_rows(commands), "  /"@ + commands[i].name@),
        text::stands_in(command_rows(commands), commands[i].source@),
        commands[i].description matches Some(words) ==> text::stands_in(
            command_rows(commands),
            words@ + "\n"@,
        ),
        command_rows(commands).is_prefix_of(commands_report(commands)),
    decreases commands.len(),
{
    let front = commands.drop_last();
    let command = commands.last();
    let words = match command.description {
        Some(description) => description@,
        None => seq![],
    };
    let named = "  /"@ + command.name@;
    let space = number::repeated(' ', number::missing(command.name@, 18));
    let row = named + space + " "@ + number::padded_right(command.source@, 9) + " "@ + (words
        + "\n"@);
    assert(command_rows(commands) =~= command_rows(front) + row);
    if i < front.len() {
        law_every_command_is_listed(front, i);
        assert(front[i] == commands[i]);
    }
    broadcast use text::group_stands;

    assert(text::stands_in(row, named));
    assert(text::stands_in(row, command.source@));
    assert(text::stands_in(row, words + "\n"@));
}

/// What came of a repair is told in numbers: how many folders load now, how many still fail, and how
/// many broke meanwhile.
#[verifier::rlimit(50)]
pub proof fn law_repairs_are_told_in_numbers(before: Seq<Seq<char>>, after: Seq<Seq<char>>)
    ensures
        ({
            let told = fix_summary(before, after);
            let repaired = folders(before).difference(folders(after)).len();
            let broke = folders(after).difference(folders(before)).len();
            &&& repaired > 0 ==> text::stands_in(told, number::decimal(repaired))
            &&& folders(after).len() > 0 ==> text::stands_in(
                told,
                number::decimal(folders(after).len()),
            )
            &&& repaired == 0 ==> text::stands_in(told, "nothing fixed"@)
            &&& broke > 0 ==> text::stands_in(told, number::decimal(broke))
        }),
{
    assert("Skill repair: nothing fixed \u{2014} "@ =~= "Skill repair: "@ + "nothing fixed"@
        + " \u{2014} "@) by {
        reveal_strlit("Skill repair: nothing fixed \u{2014} ");
        reveal_strlit("Skill repair: ");
        reveal_strlit("nothing fixed");
        reveal_strlit(" \u{2014} ");
    }
    let told = fix_summary(before, after);
    let repaired = folders(before).difference(folders(after)).len();
    let broke = folders(after).difference(folders(before)).len();
    if repaired > 0 {
        assert(text::stands_in(told, number::decimal(repaired))) by {
            broadcast use text::group_stands;

        }
    } else {
        assert(text::stands_in(told, "nothing fixed"@)) by {
            broadcast use text::group_stands;

        }
    }
    if folders(after).len() > 0 {
        assert(text::stands_in(told, number::decimal(folders(after).len()))) by {
            broadcast use text::group_stands;

        }
    }
    if broke > 0 {
        assert(text::stands_in(told, number::decimal(broke))) by {
            broadcast use text::group_stands;

        }
    }
}

} // verus!
