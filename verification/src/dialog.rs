//! Questions and answers: what the user is shown and asked, and what an answer means.
use crate::config;
use crate::config::{Config, McpServer, Profile, ProfileModel, Theme, DEFAULT_BASE_URL};
use crate::mcp::{ConnectionStatus, StatusModel};
use crate::number;
use crate::number::{count, number as number_text, pad_right, parse_count};
use crate::panel;
use crate::panel::tools_disabled_note;
use crate::provider::{CallModel, Message, MessageModel, Role, ToolCall};
use crate::scan;
use crate::scan::{is_blank, same_ignoring_case, strip_prefix, trim, trim_end, Class};
use crate::snippet;
use crate::snippet::display_path;
use crate::split;
use crate::split::{join, split_once, split_words};
use crate::text;
use crate::text::{cat, cat3, holds, same};
use crate::tools::{ToolError, ASK_USER_TOOL};
use crate::tui::Skill;
use vstd::prelude::*;
use vstd::string::*;

verus! {

broadcast use crate::text::group_views;

// ---------------------------------------------------------------------------------------------
// Asking the user
// ---------------------------------------------------------------------------------------------

/// A question must ask something.
pub fn check_question(question: &str) -> (r: Result<(), ToolError<String>>)
    ensures
        match r {
            Ok(_) => !scan::blank(question@),
            Err(error) => scan::blank(question@) && error@ == (ToolError::Empty {
                tool: ASK_USER_TOOL@,
                key: "question"@,
            }),
        },
{
    if is_blank(question) {
        return Err(
            ToolError::Empty { tool: ASK_USER_TOOL.to_owned(), key: "question".to_owned() },
        );
    }
    Ok(())
}

/// The options, numbered, a line each.
pub open spec fn numbered(options: Seq<Seq<char>>) -> Seq<char>
    decreases options.len(),
{
    if options.len() == 0 {
        seq![]
    } else {
        numbered(options.drop_last()) + "    "@ + number::decimal(options.len()) + ". "@
            + options.last() + "\n"@
    }
}

/// The question as it is shown, with its options.
pub fn question_text(question: &str, options: &[String]) -> (r: String)
    requires
        options@.len() < usize::MAX,
    ensures
        r@ == "  ? "@ + question@ + "\n"@ + numbered(text::views(options@)) + "    > "@,
{
    let ghost all = text::views(options@);
    let mut list = String::new();
    let mut i: usize = 0;
    assert(list@ =~= seq![]);
    while i < options.len()
        invariant
            i <= options.len(),
            options@.len() < usize::MAX,
            all == text::views(options@),
            list@ == numbered(all.take(i as int)),
        decreases options.len() - i,
    {
        assert(all.take(i + 1).drop_last() =~= all.take(i as int));
        assert(all.take(i + 1).last() == options@[i as int]@);
        let n = count(i + 1);
        list.append("    ");
        list.append(n.as_str());
        list.append(". ");
        list.append(options[i].as_str());
        list.append("\n");
        i += 1;
    }
    assert(all.take(i as int) =~= all);
    let mut out = cat3("  ? ", question, "\n");
    out.append(list.as_str());
    out.append("    > ");
    out
}

/// What an answer means: the option with that number, or the answer itself.
pub open spec fn resolved(answer: Seq<char>, options: Seq<Seq<char>>) -> Seq<char> {
    let a = scan::trimmed(answer);
    match number::counted(a, usize::MAX as int) {
        Some(n) => if 1 <= n <= options.len() {
            options[n - 1]
        } else {
            a
        },
        None => a,
    }
}

/// What an answer means: the option with that number, or the answer itself.
pub fn resolve_answer(answer: &str, options: &[String]) -> (r: String)
    ensures
        r@ == resolved(answer@, text::views(options@)),
{
    let a = trim(answer);
    if let Some(n) = parse_count(a.as_str()) {
        if n >= 1 && n <= options.len() {
            assert(text::views(options@)[n - 1] == options@[n - 1]@);
            return options[n - 1].clone();
        }
    }
    a
}

/// The number of an option means that option, and so it does for every option.
pub proof fn law_numbers_choose_options(options: Seq<Seq<char>>, i: int)
    requires
        0 <= i < options.len() <= usize::MAX,
    ensures
        resolved(number::decimal((i + 1) as nat), options) == options[i],
{
    let digits = number::decimal((i + 1) as nat);
    number::law_decimal_reads_back((i + 1) as nat);
    assert('0' <= digits[0] <= '9');
    assert('0' <= digits[digits.len() - 1] <= '9');
    scan::lemma_trimmed_bare(digits);
    assert(number::all_digits(digits));
}

// ---------------------------------------------------------------------------------------------
// MCP servers
// ---------------------------------------------------------------------------------------------

/// What `/mcp` asks for.
#[derive(Debug)]
pub enum McpCommand {
    /// Switch servers on and off.
    Apply(Vec<(String, bool)>),
    ToggleUsage,
    Toggle(String),
    Picker,
    List,
}

/// The servers to switch on or off that a word names.
pub open spec fn mark_in(word: Seq<char>) -> Option<(Seq<char>, bool)> {
    match split::cut(word, ':') {
        Some(pair) => Some((pair.0, scan::lower(pair.1) == scan::lower("on"@))),
        None => None,
    }
}

/// The servers to switch on or off that some words name.
pub open spec fn marks_in(words: Seq<Seq<char>>) -> Seq<(Seq<char>, bool)>
    decreases words.len(),
{
    if words.len() == 0 {
        seq![]
    } else {
        match mark_in(words.last()) {
            Some(mark) => marks_in(words.drop_last()).push(mark),
            None => marks_in(words.drop_last()),
        }
    }
}

/// The views of some marks.
pub open spec fn mark_views(marks: Seq<(String, bool)>) -> Seq<(Seq<char>, bool)> {
    Seq::new(marks.len(), |i: int| (marks[i].0@, marks[i].1))
}

fn read_marks(list: &str) -> (r: Vec<(String, bool)>)
    ensures
        mark_views(r@) == marks_in(split::words(list@)),
{
    let words = split_words(list);
    let ghost all = split::words(list@);
    let mut out: Vec<(String, bool)> = Vec::new();
    let mut i: usize = 0;
    assert(mark_views(out@) =~= marks_in(all.take(0)));
    while i < words.len()
        invariant
            i <= words.len(),
            text::views(words@) == all,
            mark_views(out@) == marks_in(all.take(i as int)),
        decreases words.len() - i,
    {
        assert(all.take(i + 1).drop_last() =~= all.take(i as int));
        assert(all.take(i + 1).last() == words@[i as int]@);
        let ghost before = mark_views(out@);
        if let Some(pair) = split_once(words[i].as_str(), ':') {
            let on = same_ignoring_case(pair.1.as_str(), "on");
            let ghost model = (pair.0@, on);
            out.push((pair.0, on));
            assert(mark_views(out@) =~= before.push(model));
        }
        i += 1;
    }
    assert(all.take(i as int) =~= all);
    out
}

/// Take in the argument of `/mcp`. `tui` tells whether the screen has pickers.
pub fn mcp_command(argument: &str, tui: bool) -> (r: McpCommand)
    ensures
        ({
            let a = scan::trimmed(argument@);
            let apply = scan::has_prefix(a, "apply "@);
            let toggle = scan::has_prefix(a, "toggle "@);
            let name = scan::trimmed(a.skip("toggle "@.len() as int));
            match r {
                McpCommand::Apply(marks) => apply && mark_views(marks@) == marks_in(
                    split::words(a.skip("apply "@.len() as int)),
                ),
                McpCommand::ToggleUsage => !apply && toggle && name.len() == 0,
                McpCommand::Toggle(server) => !apply && toggle && name.len() > 0 && server@ == name,
                McpCommand::Picker => !apply && !toggle && a.len() == 0 && tui,
                McpCommand::List => !apply && !toggle && !(a.len() == 0 && tui),
            }
        }),
{
    let a = trim(argument);
    if let Some(rest) = strip_prefix(a.as_str(), "apply ") {
        return McpCommand::Apply(read_marks(rest.as_str()));
    }
    if let Some(rest) = strip_prefix(a.as_str(), "toggle ") {
        let name = trim(rest.as_str());
        if name.as_str().is_empty() {
            return McpCommand::ToggleUsage;
        }
        return McpCommand::Toggle(name);
    }
    if a.as_str().is_empty() && tui {
        McpCommand::Picker
    } else {
        McpCommand::List
    }
}

/// The first server of a name.
pub open spec fn server_named(servers: Seq<McpServer>, name: Seq<char>) -> Option<McpServer>
    decreases servers.len(),
{
    if servers.len() == 0 {
        None
    } else if servers[0].name@ == name {
        Some(servers[0])
    } else {
        server_named(servers.skip(1), name)
    }
}

/// Whether the server of a name is switched on in the configuration.
pub fn server_enabled(servers: &[McpServer], name: &str) -> (r: Result<bool, String>)
    ensures
        match server_named(servers@, name@) {
            Some(server) => r == Ok::<bool, String>(server.enabled),
            None => r matches Err(error) && error@ == "no MCP server named '"@ + name@ + "'"@,
        },
{
    let mut i: usize = 0;
    assert(servers@.skip(0) =~= servers@);
    while i < servers.len()
        invariant
            i <= servers.len(),
            server_named(servers@, name@) == server_named(servers@.skip(i as int), name@),
        decreases servers.len() - i,
    {
        if same(servers[i].name.as_str(), name) {
            return Ok(servers[i].enabled);
        }
        assert(servers@.skip(i as int).skip(1) =~= servers@.skip(i + 1));
        i += 1;
    }
    Err(cat3("no MCP server named '", name, "'"))
}

/// Where the first status of a name stands.
pub open spec fn status_at(statuses: Seq<StatusModel>, name: Seq<char>) -> nat
    decreases statuses.len(),
{
    if statuses.len() == 0 || statuses[0].name == name {
        0
    } else {
        1 + status_at(statuses.skip(1), name)
    }
}

/// The statuses after a server was switched on or off.
pub open spec fn switched(statuses: Seq<StatusModel>, name: Seq<char>, enabled: bool) -> Seq<StatusModel> {
    let i = status_at(statuses, name) as int;
    if i < statuses.len() {
        statuses.update(i, StatusModel { disabled: !enabled, ..statuses[i] })
    } else {
        statuses
    }
}

proof fn lemma_status_at(statuses: Seq<StatusModel>, name: Seq<char>, i: int)
    requires
        0 <= i <= statuses.len(),
        forall|j: int| 0 <= j < i ==> (#[trigger] statuses[j]).name != name,
        i < statuses.len() ==> statuses[i].name == name,
    ensures
        status_at(statuses, name) == i,
    decreases i,
{
    if i > 0 {
        assert(statuses[0].name != name);
        assert(forall|j: int| 0 <= j < i - 1 ==> (#[trigger] statuses.skip(1)[j]) == statuses[j + 1]);
        lemma_status_at(statuses.skip(1), name, i - 1);
    }
}

/// A server was switched on or off: its status says so from now on.
pub fn mirror_enabled(statuses: &mut Vec<ConnectionStatus>, name: &str, enabled: bool)
    ensures
        text::views(final(statuses)@) == switched(text::views(old(statuses)@), name@, enabled),
{
    let ghost all = text::views(statuses@);
    let mut i: usize = 0;
    while i < statuses.len()
        invariant
            i <= statuses.len(),
            *statuses == *old(statuses),
            all == text::views(statuses@),
            forall|j: int| 0 <= j < i ==> (#[trigger] all[j]).name != name@,
        decreases statuses.len() - i,
    {
        if same(statuses[i].name.as_str(), name) {
            proof {
                lemma_status_at(all, name@, i as int);
            }
            let next = ConnectionStatus {
                name: statuses[i].name.clone(),
                tool_count: statuses[i].tool_count,
                trusted: statuses[i].trusted,
                disabled: !enabled,
                error: text::copy_opt(&statuses[i].error),
            };
            let ghost model = next@;
            statuses.set(i, next);
            assert(model == (StatusModel { disabled: !enabled, ..all[i as int] }));
            assert(text::views(statuses@) =~= switched(all, name@, enabled));
            return;
        }
        i += 1;
    }
    proof {
        lemma_status_at(all, name@, i as int);
    }
}

/// Where the first server of a name stands.
pub open spec fn server_at(servers: Seq<McpServer>, name: Seq<char>) -> nat
    decreases servers.len(),
{
    if servers.len() == 0 || servers[0].name@ == name {
        0
    } else {
        1 + server_at(servers.skip(1), name)
    }
}

/// The configured servers after one was switched on or off.
pub open spec fn configured(servers: Seq<McpServer>, name: Seq<char>, enabled: bool) -> Seq<McpServer> {
    let i = server_at(servers, name) as int;
    if i < servers.len() {
        servers.update(i, McpServer { enabled, ..servers[i] })
    } else {
        servers
    }
}

proof fn lemma_server_at(servers: Seq<McpServer>, name: Seq<char>, i: int)
    requires
        0 <= i <= servers.len(),
        forall|j: int| 0 <= j < i ==> (#[trigger] servers[j]).name@ != name,
        i < servers.len() ==> servers[i].name@ == name,
    ensures
        server_at(servers, name) == i,
        server_named(servers, name) == if i < servers.len() {
            Some(servers[i])
        } else {
            None
        },
    decreases i,
{
    if i > 0 {
        assert(servers[0].name@ != name);
        assert(forall|j: int| 0 <= j < i - 1 ==> (#[trigger] servers.skip(1)[j]) == servers[j + 1]);
        lemma_server_at(servers.skip(1), name, i - 1);
    }
}

/// A server that is configured is named at its place, and at no place before.
proof fn lemma_server_place(servers: Seq<McpServer>, name: Seq<char>)
    ensures
        ({
            let i = server_at(servers, name) as int;
            &&& i <= servers.len()
            &&& i < servers.len() ==> servers[i].name@ == name
            &&& forall|j: int| 0 <= j < i ==> (#[trigger] servers[j]).name@ != name
        }),
    decreases servers.len(),
{
    if servers.len() > 0 && servers[0].name@ != name {
        lemma_server_place(servers.skip(1), name);
        let i = server_at(servers, name) as int;
        assert forall|j: int| 0 <= j < i implies (#[trigger] servers[j]).name@ != name by {
            if j > 0 {
                assert(servers.skip(1)[j - 1] == servers[j]);
            }
        }
    }
}

/// A status of a name stands at its place, and at no place before.
proof fn lemma_status_place(statuses: Seq<StatusModel>, name: Seq<char>)
    ensures
        ({
            let i = status_at(statuses, name) as int;
            &&& i <= statuses.len()
            &&& i < statuses.len() ==> statuses[i].name == name
            &&& forall|j: int| 0 <= j < i ==> (#[trigger] statuses[j]).name != name
        }),
    decreases statuses.len(),
{
    if statuses.len() > 0 && statuses[0].name != name {
        lemma_status_place(statuses.skip(1), name);
        let i = status_at(statuses, name) as int;
        assert forall|j: int| 0 <= j < i implies (#[trigger] statuses[j]).name != name by {
            if j > 0 {
                assert(statuses.skip(1)[j - 1] == statuses[j]);
            }
        }
    }
}

/// A server is switched on or off: the configuration and its status say so from now on. Without a
/// server of that name nothing changes.
pub fn switch_server(
    servers: &mut Vec<McpServer>,
    statuses: &mut Vec<ConnectionStatus>,
    name: &str,
    enabled: bool,
) -> (r: Result<(), String>)
    ensures
        match server_named(old(servers)@, name@) {
            Some(_) => {
                &&& r is Ok
                &&& final(servers)@ == configured(old(servers)@, name@, enabled)
                &&& text::views(final(statuses)@) == switched(
                    text::views(old(statuses)@),
                    name@,
                    enabled,
                )
            },
            None => {
                &&& r matches Err(error) && error@ == "no MCP server named '"@ + name@ + "'"@
                &&& final(servers)@ == old(servers)@
                &&& final(statuses)@ == old(statuses)@
            },
        },
{
    let ghost all = servers@;
    let mut i: usize = 0;
    while i < servers.len()
        invariant
            i <= servers.len(),
            *servers == *old(servers),
            *statuses == *old(statuses),
            all == servers@,
            forall|j: int| 0 <= j < i ==> (#[trigger] all[j]).name@ != name@,
        decreases servers.len() - i,
    {
        if same(servers[i].name.as_str(), name) {
            proof {
                lemma_server_at(all, name@, i as int);
            }
            let mut server = servers.remove(i);
            server.enabled = enabled;
            servers.insert(i, server);
            assert(servers@ =~= configured(all, name@, enabled));
            mirror_enabled(statuses, name, enabled);
            return Ok(());
        }
        i += 1;
    }
    proof {
        lemma_server_at(all, name@, i as int);
    }
    Err(cat3("no MCP server named '", name, "'"))
}

/// Flip a server, and say whether it is switched on now.
pub fn toggle_mcp(
    servers: &mut Vec<McpServer>,
    statuses: &mut Vec<ConnectionStatus>,
    name: &str,
) -> (r: Result<bool, String>)
    ensures
        match server_named(old(servers)@, name@) {
            Some(server) => {
                &&& r == Ok::<bool, String>(!server.enabled)
                &&& final(servers)@ == configured(old(servers)@, name@, !server.enabled)
                &&& text::views(final(statuses)@) == switched(
                    text::views(old(statuses)@),
                    name@,
                    !server.enabled,
                )
            },
            None => {
                &&& r matches Err(error) && error@ == "no MCP server named '"@ + name@ + "'"@
                &&& final(servers)@ == old(servers)@
                &&& final(statuses)@ == old(statuses)@
            },
        },
{
    match server_enabled(servers.as_slice(), name) {
        Ok(enabled) => match switch_server(servers, statuses, name, !enabled) {
            Ok(_) => Ok(!enabled),
            Err(error) => Err(error),
        },
        Err(error) => Err(error),
    }
}

/// A server that is flipped is switched the other way, and flipped twice it is as it was, with its
/// status, as long as that tells what is configured.
pub proof fn law_toggling_twice_changes_nothing(
    servers: Seq<McpServer>,
    statuses: Seq<StatusModel>,
    name: Seq<char>,
)
    requires
        server_named(servers, name) is Some,
        status_at(statuses, name) < statuses.len() ==> statuses[status_at(
            statuses,
            name,
        ) as int].disabled == !(server_named(servers, name)->0).enabled,
    ensures
        ({
            let was = (server_named(servers, name)->0).enabled;
            let once = configured(servers, name, !was);
            let shown = switched(statuses, name, !was);
            &&& server_named(once, name) is Some
            &&& (server_named(once, name)->0).enabled == !was
            &&& configured(once, name, was) == servers
            &&& switched(shown, name, was) == statuses
        }),
{
    let was = (server_named(servers, name)->0).enabled;
    let i = server_at(servers, name) as int;
    lemma_server_place(servers, name);
    lemma_server_at(servers, name, i);
    let once = configured(servers, name, !was);
    assert forall|j: int| 0 <= j < i implies (#[trigger] once[j]).name@ != name by {
        assert(once[j] == servers[j]);
    }
    lemma_server_at(once, name, i);
    assert(configured(once, name, was) =~= servers);
    let k = status_at(statuses, name) as int;
    lemma_status_place(statuses, name);
    let shown = switched(statuses, name, !was);
    assert forall|j: int| 0 <= j < k implies (#[trigger] shown[j]).name != name by {
        assert(shown[j] == statuses[j]);
    }
    lemma_status_at(shown, name, k);
    assert(switched(shown, name, was) =~= statuses);
}

/// What is told after servers were switched on and off, and whether it is a failure.
pub fn mcp_applied_note(applied: usize, first_error: Option<&str>) -> (r: (String, bool))
    ensures
        match first_error {
            Some(error) => r.1 && r.0@ == "MCP config updated ("@ + number::decimal(applied as nat)
                + " changed), but: "@ + error@,
            None => !r.1 && r.0@ == "MCP config updated \u{2014} restart kamui to apply."@,
        },
{
    match first_error {
        Some(error) => {
            let n = count(applied);
            let mut out = cat3("MCP config updated (", n.as_str(), " changed), but: ");
            out.append(error);
            (out, true)
        },
        None => ("MCP config updated \u{2014} restart kamui to apply.".to_owned(), false),
    }
}

/// What is told after a server was switched on or off, above the listing.
pub fn mcp_toggled_note(name: &str, enabled: bool, listing: &str) -> (r: String)
    ensures
        r@ == name@ + " is now "@ + (if enabled {
            "enabled"@
        } else {
            "disabled"@
        }) + ".\nRestart kamui to apply.\n\n"@ + listing@,
{
    let state = if enabled {
        "enabled"
    } else {
        "disabled"
    };
    let mut out = cat3(name, " is now ", state);
    out.append(".\nRestart kamui to apply.\n\n");
    out.append(listing);
    out
}

/// One server in the picker.
pub open spec fn mcp_item(status: StatusModel) -> (Seq<char>, Seq<char>) {
    let state = if status.disabled {
        "disabled"@
    } else if status.error is Some {
        "unavailable"@
    } else {
        "enabled"@
    };
    (status.name, state + " · "@ + number::decimal(status.tool_count as nat) + " tool(s)"@)
}

/// The entries of the server picker.
pub fn mcp_dialog_items(statuses: &[ConnectionStatus]) -> (r: Vec<(String, String)>)
    ensures
        panel::pairs(r@) == text::views(statuses@).map_values(
            |status: StatusModel| mcp_item(status),
        ),
{
    let ghost wanted = text::views(statuses@).map_values(|status: StatusModel| mcp_item(status));
    let mut items: Vec<(String, String)> = Vec::new();
    let mut i: usize = 0;
    assert(panel::pairs(items@) =~= wanted.take(0));
    while i < statuses.len()
        invariant
            i <= statuses.len(),
            wanted == text::views(statuses@).map_values(|status: StatusModel| mcp_item(status)),
            panel::pairs(items@) == wanted.take(i as int),
        decreases statuses.len() - i,
    {
        let status = &statuses[i];
        let state = if status.disabled {
            "disabled"
        } else if status.error.is_some() {
            "unavailable"
        } else {
            "enabled"
        };
        let n = count(status.tool_count);
        let mut label = cat3(state, " · ", n.as_str());
        label.append(" tool(s)");
        let name = status.name.clone();
        let ghost before = panel::pairs(items@);
        assert(wanted[i as int] == (name@, label@));
        items.push((name, label));
        assert(panel::pairs(items@) =~= before.push(wanted[i as int]));
        assert(wanted.take(i + 1) =~= before.push(wanted[i as int]));
        i += 1;
    }
    assert(wanted.take(i as int) =~= wanted);
    items
}

// ---------------------------------------------------------------------------------------------
// Profiles
// ---------------------------------------------------------------------------------------------

/// One profile in the listing.
pub open spec fn profile_row(profile: Profile, active: Seq<char>) -> Seq<char> {
    (if profile.name@ == active {
        "*"@
    } else {
        " "@
    }) + " "@ + number::padded_right(profile.name@, 16) + " "@ + number::padded_right(
        profile.model@,
        22,
    ) + " "@ + profile.base_url@ + (if profile.tools {
        seq![]
    } else {
        "  [no tools]"@
    })
}

/// The listing of profiles, a line each.
pub fn profile_rows(config: &Config, active: &str) -> (r: Vec<String>)
    ensures
        text::views(r@) == seq!["Profiles:"@] + config.profiles@.map_values(
            |profile: Profile| profile_row(profile, active@),
        ),
{
    let ghost wanted = config.profiles@.map_values(|profile: Profile| profile_row(profile, active@));
    let mut rows: Vec<String> = Vec::new();
    rows.push("Profiles:".to_owned());
    let mut i: usize = 0;
    assert(text::views(rows@) =~= seq!["Profiles:"@] + wanted.take(0));
    while i < config.profiles.len()
        invariant
            i <= config.profiles.len(),
            wanted == config.profiles@.map_values(|profile: Profile| profile_row(profile, active@)),
            text::views(rows@) == seq!["Profiles:"@] + wanted.take(i as int),
        decreases config.profiles.len() - i,
    {
        let profile = &config.profiles[i];
        let mark = if same(profile.name.as_str(), active) {
            "*"
        } else {
            " "
        };
        let name = pad_right(profile.name.as_str(), 16);
        let model = pad_right(profile.model.as_str(), 22);
        let mut row = cat3(mark, " ", name.as_str());
        row.append(" ");
        row.append(model.as_str());
        row.append(" ");
        row.append(profile.base_url.as_str());
        if !profile.tools {
            row.append("  [no tools]");
        } else {
            assert(row@ + seq![] =~= row@);
        }
        assert(row@ == wanted[i as int]);
        let ghost before = text::views(rows@);
        rows.push(row);
        assert(text::views(rows@) =~= seq!["Profiles:"@] + wanted.take(i + 1));
        i += 1;
    }
    assert(wanted.take(i as int) =~= wanted);
    rows
}

/// What is told after a profile was switched to.
pub open spec fn switched_note(profile: ProfileModel) -> Seq<char> {
    "Now using "@ + profile.model + " ("@ + profile.name + ").\n"@ + (if profile.tools {
        seq![]
    } else {
        "\n"@ + panel::no_tools_note(profile.name, profile.model) + "\n"@
    })
}

/// What is told after a profile was switched to, or that there is none of that name.
pub fn switch_note(config: &Config, name: &str) -> (r: String)
    ensures
        match config::find_in(config@.profiles, name@) {
            Some(profile) => r@ == switched_note(profile),
            None => r@ == "Unknown profile '"@ + name@ + "'. Type /model to list profiles.\n"@,
        },
{
    match config.find(name) {
        Some(profile) => {
            let mut out = cat3("Now using ", profile.model.as_str(), " (");
            out.append(profile.name.as_str());
            out.append(").\n");
            match tools_disabled_note(profile) {
                Some(note) => {
                    let tail = cat3("\n", note.as_str(), "\n");
                    out.append(tail.as_str());
                },
                None => {
                    assert(out@ + seq![] =~= out@);
                },
            }
            out
        },
        None => cat3("Unknown profile '", name, "'. Type /model to list profiles.\n"),
    }
}

/// A theme in the list of themes; the active one has a star.
pub open spec fn theme_row(theme: Theme, active: Theme) -> Seq<char> {
    (if theme == active {
        "*"@
    } else {
        " "@
    }) + " "@ + theme.name_spec() + "\n"@
}

fn write_theme_row(theme: Theme, active: Theme) -> (r: String)
    ensures
        r@ == theme_row(theme, active),
{
    let mut out = cat(
        if theme == active {
            "*"
        } else {
            " "
        },
        " ",
    );
    out.append(theme.name());
    out.append("\n");
    out
}

/// The themes there are, each in a row of its own.
pub fn theme_list(active: Theme) -> (r: String)
    ensures
        r@ == "Themes (* = active):\n"@ + theme_row(Theme::Default, active) + theme_row(
            Theme::Catppuccin,
            active,
        ) + theme_row(Theme::AyuDark, active) + theme_row(Theme::Ayuppuccin, active)
            + "\nUsage: /theme <name>"@,
{
    let first = write_theme_row(Theme::Default, active);
    let second = write_theme_row(Theme::Catppuccin, active);
    let third = write_theme_row(Theme::AyuDark, active);
    let fourth = write_theme_row(Theme::Ayuppuccin, active);
    let mut out = cat3("Themes (* = active):\n", first.as_str(), second.as_str());
    out.append(third.as_str());
    out.append(fourth.as_str());
    out.append("\nUsage: /theme <name>");
    out
}

/// The address that the user gave for a provider, or the usual one.
pub open spec fn base_given(line: Seq<char>) -> Seq<char> {
    let base = scan::trim_back(scan::trimmed(line), scan::one_of(seq!['/']));
    if base.len() == 0 {
        DEFAULT_BASE_URL@
    } else {
        base
    }
}

/// The address that the user gave for a provider, or the usual one.
pub fn provider_base(line: &str) -> (r: String)
    ensures
        r@ == base_given(line@),
{
    let inner = trim(line);
    let marks: [char; 1] = ['/'];
    assert(marks@ =~= seq!['/']);
    let base = trim_end(inner.as_str(), &Class::Of(&marks));
    if base.as_str().is_empty() {
        DEFAULT_BASE_URL.to_owned()
    } else {
        base
    }
}

/// The profile of a provider that the user just added.
pub fn added_profile(name: &str, base_url: &str, api_key: &str, model: &str) -> (r: Profile)
    ensures
        r.name@ == name@,
        r.model@ == model@,
        r.base_url@ == base_url@,
        r.api_key@ == api_key@,
        r.context_window is None,
        r.tools,
        r.embedding_model is None,
        r.completions_path is None,
        !r.send_session_id,
{
    Profile {
        name: name.to_owned(),
        model: model.to_owned(),
        base_url: base_url.to_owned(),
        api_key: api_key.to_owned(),
        context_window: None,
        tools: true,
        embedding_model: None,
        completions_path: None,
        send_session_id: false,
    }
}

// ---------------------------------------------------------------------------------------------
// Skills
// ---------------------------------------------------------------------------------------------

/// What `/skills` asks for.
#[derive(Debug)]
pub enum SkillsAction {
    /// Switch a skill off or on.
    Toggle { name: String, disable: bool },
    /// There is no skill of that name.
    NoSuch(String),
    /// Show them.
    Show,
}

/// Some skill has the name.
pub open spec fn is_skill(skills: Seq<Skill>, name: Seq<char>) -> bool {
    exists|i: int| 0 <= i < skills.len() && (#[trigger] skills[i]).name@ == name
}

fn has_skill(skills: &[Skill], name: &str) -> (r: bool)
    ensures
        r == is_skill(skills@, name@),
{
    let mut i: usize = 0;
    while i < skills.len()
        invariant
            i <= skills.len(),
            forall|j: int| 0 <= j < i ==> (#[trigger] skills@[j]).name@ != name@,
        decreases skills.len() - i,
    {
        if same(skills[i].name.as_str(), name) {
            assert(skills@[i as int].name@ == name@);
            return true;
        }
        i += 1;
    }
    false
}

/// Take in the argument of `/skills`.
pub fn skills_action(argument: &str, skills: &[Skill], disabled: &[String]) -> (r: SkillsAction)
    ensures
        ({
            let a = scan::trimmed(argument@);
            let toggle = scan::has_prefix(a, "toggle "@);
            let wanted = scan::trimmed(a.skip("toggle "@.len() as int));
            match r {
                SkillsAction::Toggle { name, disable } => toggle && is_skill(skills@, wanted)
                    && name@ == wanted && disable == !text::views(disabled@).contains(wanted),
                SkillsAction::NoSuch(name) => toggle && !is_skill(skills@, wanted) && name@
                    == wanted,
                SkillsAction::Show => !toggle,
            }
        }),
{
    let a = trim(argument);
    match strip_prefix(a.as_str(), "toggle ") {
        Some(rest) => {
            let name = trim(rest.as_str());
            if has_skill(skills, name.as_str()) {
                let disable = !holds(disabled, name.as_str());
                SkillsAction::Toggle { name, disable }
            } else {
                SkillsAction::NoSuch(name)
            }
        },
        None => SkillsAction::Show,
    }
}

// ---------------------------------------------------------------------------------------------
// History
// ---------------------------------------------------------------------------------------------

/// How many messages are shown of a resumed session on plain output.
pub const RESUME_PREVIEW_MESSAGES: usize = 6;

/// How many messages are replayed of a resumed session on the screen.
pub const RESUME_REPLAY_MESSAGES: usize = 10;

/// How many messages are left out where only the last few are shown.
pub open spec fn left_out(total: nat, shown: nat) -> nat {
    if total > shown {
        (total - shown) as nat
    } else {
        0
    }
}

/// How many messages are left out where only the last few are shown.
pub fn skip_count(total: usize, shown: usize) -> (r: usize)
    ensures
        r == left_out(total as nat, shown as nat),
        r <= total,
{
    if total > shown {
        total - shown
    } else {
        0
    }
}

/// A message is shown when a session is replayed: what the user said, and what the assistant
/// answered.
pub open spec fn replayed(message: MessageModel) -> bool {
    message.role == Role::User || (message.role == Role::Assistant && message.content.len() > 0)
}

/// Whether a message is shown when a session is replayed.
fn is_replayed(message: &Message) -> (r: bool)
    ensures
        r == replayed(message@),
{
    match message.role {
        Role::User => true,
        Role::Assistant => !message.content.as_str().is_empty(),
        _ => false,
    }
}

/// What is told of the messages that are not replayed.
pub open spec fn skipped_note(skipped: nat) -> Seq<char> {
    number::decimal(skipped) + " earlier message(s) not replayed \u{2014} still in context"@
}

/// What is told of the messages that are not replayed, where there are any.
pub fn replay_note(skipped: usize) -> (r: Option<String>)
    ensures
        match r {
            Some(note) => skipped > 0 && note@ == skipped_note(skipped as nat),
            None => skipped == 0,
        },
{
    if skipped == 0 {
        return None;
    }
    let n = count(skipped);
    Some(cat(n.as_str(), " earlier message(s) not replayed \u{2014} still in context"))
}

/// The messages of a session that are replayed: who says each, and what.
pub open spec fn replay_of(messages: Seq<MessageModel>) -> Seq<(Role, Seq<char>)>
    decreases messages.len(),
{
    if messages.len() == 0 {
        seq![]
    } else if replayed(messages.last()) {
        replay_of(messages.drop_last()).push((messages.last().role, messages.last().content))
    } else {
        replay_of(messages.drop_last())
    }
}

/// Replayed messages as texts.
pub open spec fn told(lines: Seq<(Role, String)>) -> Seq<(Role, Seq<char>)> {
    Seq::new(lines.len(), |i: int| (lines[i].0, lines[i].1@))
}

/// The last messages of a resumed session, and what is told of those before them.
pub fn replay_tui_history(messages: &[Message]) -> (r: (Option<String>, Vec<(Role, String)>))
    ensures
        ({
            let skipped = left_out(messages@.len(), RESUME_REPLAY_MESSAGES as nat);
            &&& text::opt_view(r.0) == if skipped > 0 {
                Some(skipped_note(skipped))
            } else {
                None
            }
            &&& told(r.1@) == replay_of(text::views(messages@).skip(skipped as int))
        }),
{
    let skipped = skip_count(messages.len(), RESUME_REPLAY_MESSAGES);
    let ghost all = text::views(messages@).skip(skipped as int);
    let mut lines: Vec<(Role, String)> = Vec::new();
    let mut i: usize = skipped;
    assert(told(lines@) =~= replay_of(all.take(0)));
    while i < messages.len()
        invariant
            skipped <= i <= messages@.len(),
            all == text::views(messages@).skip(skipped as int),
            told(lines@) == replay_of(all.take(i - skipped)),
        decreases messages@.len() - i,
    {
        let message = &messages[i];
        let ghost before = lines@;
        assert(all.take(i + 1 - skipped).drop_last() =~= all.take(i - skipped));
        assert(all.take(i + 1 - skipped).last() == message@);
        if is_replayed(message) {
            lines.push((message.role, message.content.as_str().to_owned()));
            assert(told(lines@) =~= told(before).push((message@.role, message@.content)));
        }
        i += 1;
    }
    assert(all.take(messages@.len() - skipped) =~= all);
    (replay_note(skipped), lines)
}

/// Who says a message.
pub open spec fn teller(role: Role) -> Seq<char> {
    match role {
        Role::User => "You"@,
        Role::Assistant => "Assistant"@,
        Role::System => "System"@,
        Role::Tool => "Tool"@,
    }
}

/// One message of a preview.
pub open spec fn preview_of(message: MessageModel) -> Seq<char> {
    let body = if message.content.len() == 0 && message.tool_calls.len() > 0 {
        "(requested tools: "@ + split::joined(
            message.tool_calls.map_values(|call: CallModel| call.name),
            ", "@,
        ) + ")"@
    } else {
        message.content
    };
    teller(message.role) + ":\n"@ + body + "\n\n"@
}

/// Some messages of a preview.
pub open spec fn previews(messages: Seq<MessageModel>) -> Seq<char>
    decreases messages.len(),
{
    if messages.len() == 0 {
        seq![]
    } else {
        previews(messages.drop_last()) + preview_of(messages.last())
    }
}

/// The end of a conversation, as a preview.
pub open spec fn history_preview(messages: Seq<MessageModel>) -> Seq<char> {
    if messages.len() == 0 {
        "No previous messages.\n\n"@
    } else {
        let start = left_out(messages.len(), RESUME_PREVIEW_MESSAGES as nat);
        let first = if start > 0 {
            "... "@ + number::decimal(start) + " earlier messages omitted\n\n"@
        } else {
            seq![]
        };
        first + previews(messages.skip(start as int)) + "--- End of history ---\n\n"@
    }
}

fn call_names(calls: &[ToolCall]) -> (r: String)
    ensures
        r@ == split::joined(
            text::views(calls@).map_values(|call: CallModel| call.name),
            ", "@,
        ),
{
    let ghost wanted = text::views(calls@).map_values(
        |call: CallModel| call.name,
    );
    let mut names: Vec<String> = Vec::new();
    let mut i: usize = 0;
    while i < calls.len()
        invariant
            i <= calls.len(),
            wanted == text::views(calls@).map_values(
                |call: CallModel| call.name,
            ),
            text::views(names@) =~= wanted.take(i as int),
        decreases calls.len() - i,
    {
        names.push(calls[i].name.clone());
        i += 1;
    }
    assert(wanted.take(i as int) =~= wanted);
    join(&names, ", ")
}

fn preview_message(message: &Message) -> (r: String)
    ensures
        r@ == preview_of(message@),
{
    let who = match message.role {
        Role::User => "You",
        Role::Assistant => "Assistant",
        Role::System => "System",
        Role::Tool => "Tool",
    };
    let body = if message.content.as_str().is_empty() && message.tool_calls.len() > 0 {
        let names = call_names(&message.tool_calls);
        cat3("(requested tools: ", names.as_str(), ")")
    } else {
        message.content.clone()
    };
    let mut out = cat3(who, ":\n", body.as_str());
    out.append("\n\n");
    out
}

/// The end of a conversation, as a preview.
pub fn print_history_preview(messages: &[Message]) -> (r: String)
    ensures
        r@ == history_preview(text::views(messages@)),
{
    if messages.len() == 0 {
        return "No previous messages.\n\n".to_owned();
    }
    let ghost all = text::views(messages@);
    let start = skip_count(messages.len(), RESUME_PREVIEW_MESSAGES);
    let mut out = String::new();
    assert(out@ =~= seq![]);
    if start > 0 {
        let n = count(start);
        out = cat3("... ", n.as_str(), " earlier messages omitted\n\n");
    }
    let ghost tail = all.skip(start as int);
    let mut list = String::new();
    assert(list@ =~= seq![]);
    let mut i: usize = start;
    assert(tail.take(0) =~= seq![]);
    while i < messages.len()
        invariant
            start <= i <= messages.len(),
            all == text::views(messages@),
            tail == all.skip(start as int),
            list@ == previews(tail.take(i - start)),
        decreases messages.len() - i,
    {
        assert(tail.take(i - start + 1).drop_last() =~= tail.take(i - start));
        assert(tail.take(i - start + 1).last() == messages@[i as int]@);
        let part = preview_message(&messages[i]);
        list.append(part.as_str());
        i += 1;
    }
    assert(tail.take(i - start) =~= tail);
    out.append(list.as_str());
    out.append("--- End of history ---\n\n");
    out
}

// ---------------------------------------------------------------------------------------------
// Notes
// ---------------------------------------------------------------------------------------------

/// The header of the screen.
pub fn header(version: &str, model: &str, root: &str) -> (r: String)
    ensures
        r@ == "Kamui v"@ + version@ + " · "@ + model@ + " · "@ + snippet::displayed(root@),
{
    let shown = display_path(root);
    let mut out = cat3("Kamui v", version, " · ");
    out.append(model);
    out.append(" · ");
    out.append(shown.as_str());
    out
}

/// The status in a line.
pub fn status_line(root: &str, model: &str, tools: usize, servers: usize) -> (r: String)
    ensures
        r@ == "Project: "@ + snippet::displayed(root@) + " · Model: "@ + model@ + " · Tools: "@
            + number::decimal(tools as nat) + " · MCP: "@ + number::decimal(servers as nat),
{
    let shown = display_path(root);
    let t = count(tools);
    let s = count(servers);
    let mut out = cat3("Project: ", shown.as_str(), " · Model: ");
    out.append(model);
    out.append(" · Tools: ");
    out.append(t.as_str());
    out.append(" · MCP: ");
    out.append(s.as_str());
    out
}

/// What is told of a search without a hit.
pub fn no_matches(needle: &str) -> (r: String)
    ensures
        r@ == "No messages matched \""@ + needle@ + "\".\n"@,
{
    cat3("No messages matched \"", needle, "\".\n")
}

/// What is told after everything was forgotten.
pub fn forgot_all(n: u64) -> (r: String)
    ensures
        r@ == "Forgot all "@ + number::decimal(n as nat) + " remembered fact(s).\n"@,
{
    let digits = number_text(n);
    cat3("Forgot all ", digits.as_str(), " remembered fact(s).\n")
}

/// What is told after a fact was to be forgotten.
pub fn forgot(matching: &str, found: bool) -> (r: String)
    ensures
        r@ == if found {
            "Forgot the fact matching \""@ + matching@ + "\".\n"@
        } else {
            "No remembered fact matches \""@ + matching@
                + "\", or the text matches more than one. Use /memory to see exact wording.\n"@
        },
{
    if found {
        cat3("Forgot the fact matching \"", matching, "\".\n")
    } else {
        cat3(
            "No remembered fact matches \"",
            matching,
            "\", or the text matches more than one. Use /memory to see exact wording.\n",
        )
    }
}

// ---------------------------------------------------------------------------------------------
// What a dialog shows and takes
// ---------------------------------------------------------------------------------------------

/// Every option is offered, whole and under its number.
#[verifier::rlimit(50)]
pub proof fn law_every_option_is_offered(options: Seq<Seq<char>>, i: int)
    requires
        0 <= i < options.len(),
    ensures
        text::stands_in(
            numbered(options),
            number::decimal((i + 1) as nat) + ". "@ + options[i] + "\n"@,
        ),
        numbered(options.take(i)).is_prefix_of(numbered(options)),
    decreases options.len(),
{
    let front = options.drop_last();
    let last = number::decimal(options.len()) + ". "@ + options.last() + "\n"@;
    let line = number::decimal((i + 1) as nat) + ". "@ + options[i] + "\n"@;
    assert(numbered(options) =~= numbered(front) + "    "@ + last);
    if i < front.len() {
        law_every_option_is_offered(front, i);
        assert(front[i] == options[i]);
        assert(front.take(i) =~= options.take(i));
    } else {
        assert(options.take(i) =~= front);
    }
    assert(text::stands_in(numbered(options), line)) by {
        broadcast use text::group_stands;

    }
}

/// An answer that is no number is taken as it was given.
pub proof fn law_free_answers_are_kept(answer: Seq<char>, options: Seq<Seq<char>>, i: int)
    requires
        answer.len() > 0,
        !text::is_white(answer[0]),
        !text::is_white(answer.last()),
        0 < i < answer.len() || i == 0 && answer[0] != '+',
        !('0' <= answer[i] <= '9'),
    ensures
        resolved(answer, options) == answer,
{
    scan::lemma_trimmed_bare(answer);
    if answer[0] == '+' {
        assert(answer.skip(1)[i - 1] == answer[i]);
    }
}

/// Every mark of a list is read, in order: a name and whether it is on, of each word that has both.
pub proof fn law_every_mark_is_read(
    first: Seq<Seq<char>>,
    second: Seq<Seq<char>>,
    name: Seq<char>,
)
    requires
        !name.contains(':'),
    ensures
        marks_in(first + second) == marks_in(first) + marks_in(second),
        marks_in(seq![name + ":on"@]) == seq![(name, true)],
        marks_in(seq![name + ":off"@]) == seq![(name, false)],
        marks_in(seq![name]).len() == 0,
    decreases second.len(),
{
    reveal_with_fuel(marks_in, 2);
    reveal_strlit(":on");
    reveal_strlit(":off");
    reveal_strlit("on");
    let on = name + ":on"@;
    let off = name + ":off"@;
    scan::lemma_char_at(on, ':', 0);
    scan::lemma_char_at(off, ':', 0);
    scan::lemma_char_at(name, ':', 0);
    let n = name.len() as int;
    assert(on[n] == ':' && off[n] == ':');
    assert forall|i: int| 0 <= i < n implies on[i] != ':' && off[i] != ':' && name[i] != ':' by {
        assert(name.contains(name[i]));
    }
    assert(scan::char_at(on, ':', 0) == Some(n));
    assert(scan::char_at(off, ':', 0) == Some(n));
    if let Some(k) = scan::char_at(name, ':', 0) {
        assert(name.contains(name[k]));
    }
    assert(on.take(n) =~= name && off.take(n) =~= name);
    assert(on.skip(n + 1) =~= "on"@);
    assert(scan::lower(off.skip(n + 1)).len() == 3 && scan::lower("on"@).len() == 2);
    assert(mark_in(on) == Some((name, true)));
    assert(mark_in(off) == Some((name, false)));
    assert(seq![on].drop_last() =~= seq![]);
    assert(seq![off].drop_last() =~= seq![]);
    assert(seq![name].drop_last() =~= seq![]);
    assert(marks_in(seq![on]) =~= seq![(name, true)]);
    assert(marks_in(seq![off]) =~= seq![(name, false)]);
    if second.len() == 0 {
        assert(first + second =~= first);
        assert(marks_in(first) + marks_in(second) =~= marks_in(first));
    } else {
        law_every_mark_is_read(first, second.drop_last(), name);
        assert((first + second).drop_last() =~= first + second.drop_last());
        assert((first + second).last() == second.last());
        assert(marks_in(first + second) =~= marks_in(first) + marks_in(second));
    }
}

/// Switching touches the one server that was named, and of it only whether it is on; what is shown of
/// the others stays, too.
pub proof fn law_switching_touches_one_server(
    servers: Seq<McpServer>,
    statuses: Seq<StatusModel>,
    name: Seq<char>,
    enabled: bool,
    i: int,
)
    ensures
        configured(servers, name, enabled).len() == servers.len(),
        switched(statuses, name, enabled).len() == statuses.len(),
        0 <= i < servers.len() ==> configured(servers, name, enabled)[i] == servers[i] || (
        servers[i].name@ == name && configured(servers, name, enabled)[i] == (McpServer {
            enabled,
            ..servers[i]
        })),
        0 <= i < statuses.len() ==> switched(statuses, name, enabled)[i] == statuses[i] || (
        statuses[i].name == name && switched(statuses, name, enabled)[i] == (StatusModel {
            disabled: !enabled,
            ..statuses[i]
        })),
        0 <= i < servers.len() && servers[i].name@ == name && (forall|k: int|
            0 <= k < i ==> (#[trigger] servers[k]).name@ != name) ==> configured(
            servers,
            name,
            enabled,
        )[i].enabled == enabled,
        0 <= i < statuses.len() && statuses[i].name == name && (forall|k: int|
            0 <= k < i ==> (#[trigger] statuses[k]).name != name) ==> switched(
            statuses,
            name,
            enabled,
        )[i].disabled == !enabled,
{
    lemma_first_server(servers, name);
    lemma_first_status(statuses, name);
}

proof fn lemma_first_server(servers: Seq<McpServer>, name: Seq<char>)
    ensures
        server_at(servers, name) <= servers.len(),
        server_at(servers, name) < servers.len() ==> servers[server_at(
            servers,
            name,
        ) as int].name@ == name,
        forall|k: int| 0 <= k < server_at(servers, name) ==> (#[trigger] servers[k]).name@ != name,
    decreases servers.len(),
{
    if servers.len() > 0 && servers[0].name@ != name {
        lemma_first_server(servers.skip(1), name);
        assert forall|k: int| 0 <= k < server_at(servers, name) implies (
        #[trigger] servers[k]).name@ != name by {
            if k > 0 {
                assert(servers.skip(1)[k - 1] == servers[k]);
            }
        }
    }
}

proof fn lemma_first_status(statuses: Seq<StatusModel>, name: Seq<char>)
    ensures
        status_at(statuses, name) <= statuses.len(),
        status_at(statuses, name) < statuses.len() ==> statuses[status_at(
            statuses,
            name,
        ) as int].name == name,
        forall|k: int| 0 <= k < status_at(statuses, name) ==> (#[trigger] statuses[k]).name != name,
    decreases statuses.len(),
{
    if statuses.len() > 0 && statuses[0].name != name {
        lemma_first_status(statuses.skip(1), name);
        assert forall|k: int| 0 <= k < status_at(statuses, name) implies (
        #[trigger] statuses[k]).name != name by {
            if k > 0 {
                assert(statuses.skip(1)[k - 1] == statuses[k]);
            }
        }
    }
}

/// All that was said is shown again, in order: what the user said always, what the assistant said
/// wherever it said anything, and nothing else.
pub proof fn law_everything_said_is_replayed(
    first: Seq<MessageModel>,
    second: Seq<MessageModel>,
    message: MessageModel,
)
    ensures
        replay_of(first + second) == replay_of(first) + replay_of(second),
        message.role == Role::User ==> replay_of(seq![message]) == seq![
            (Role::User, message.content),
        ],
        message.role == Role::Assistant && message.content.len() > 0 ==> replay_of(seq![message])
            == seq![(Role::Assistant, message.content)],
        message.role == Role::Assistant && message.content.len() == 0 ==> replay_of(
            seq![message],
        ).len() == 0,
        message.role == Role::System || message.role == Role::Tool ==> replay_of(
            seq![message],
        ).len() == 0,
    decreases second.len(),
{
    reveal_with_fuel(replay_of, 2);
    assert(seq![message].drop_last() =~= seq![]);
    assert(replayed(message) ==> replay_of(seq![message]) =~= seq![(message.role, message.content)]);
    if second.len() == 0 {
        assert(first + second =~= first);
        assert(replay_of(first) + replay_of(second) =~= replay_of(first));
    } else {
        law_everything_said_is_replayed(first, second.drop_last(), message);
        assert((first + second).drop_last() =~= first + second.drop_last());
        assert((first + second).last() == second.last());
        assert(replay_of(first + second) =~= replay_of(first) + replay_of(second));
    }
}

/// As many as can be are shown, and the rest is counted.
pub proof fn law_what_is_left_out_is_counted(total: nat, shown: nat)
    ensures
        total <= shown ==> left_out(total, shown) == 0,
        total > shown ==> left_out(total, shown) + shown == total,
{
}

#[verifier::rlimit(50)]
proof fn lemma_preview_stands(messages: Seq<MessageModel>, i: int)
    requires
        0 <= i < messages.len(),
    ensures
        text::stands_in(previews(messages), preview_of(messages[i])),
    decreases messages.len(),
{
    broadcast use text::group_stands;

    if i < messages.len() - 1 {
        lemma_preview_stands(messages.drop_last(), i);
        assert(messages.drop_last()[i] == messages[i]);
    }
}

/// The history that is shown holds each of the last messages whole: who spoke and every word, or the
/// tools that were asked for where nothing was said; of the others it tells how many there are.
#[verifier::rlimit(50)]
pub proof fn law_histories_hold_the_last_messages(messages: Seq<MessageModel>, i: int, j: int)
    requires
        0 <= i < messages.len(),
        i + RESUME_PREVIEW_MESSAGES >= messages.len(),
    ensures
        messages[i].content.len() > 0 ==> text::stands_in(
            history_preview(messages),
            messages[i].content + "\n\n"@,
        ),
        messages[i].content.len() == 0 && 0 <= j < messages[i].tool_calls.len() ==> text::stands_in(
            history_preview(messages),
            messages[i].tool_calls[j].name,
        ),
        messages[i].role == Role::User ==> text::stands_in(history_preview(messages), "You"@),
        messages[i].role == Role::Assistant ==> text::stands_in(
            history_preview(messages),
            "Assistant"@,
        ),
        messages.len() > RESUME_PREVIEW_MESSAGES ==> text::stands_in(
            history_preview(messages),
            number::decimal((messages.len() - RESUME_PREVIEW_MESSAGES) as nat),
        ),
{
    let start = left_out(messages.len(), RESUME_PREVIEW_MESSAGES as nat) as int;
    let shown = messages.skip(start);
    let message = messages[i];
    assert(shown[i - start] == message);
    lemma_preview_stands(shown, i - start);
    let preview = preview_of(message);
    let whole = history_preview(messages);
    let first = if start > 0 {
        "... "@ + number::decimal(start as nat) + " earlier messages omitted\n\n"@
    } else {
        seq![]
    };
    assert(whole == first + previews(shown) + "--- End of history ---\n\n"@);
    assert(text::stands_in(whole, preview)) by {
        broadcast use text::lemma_stands_added;

    }
    if start > 0 {
        assert(text::stands_in(first, number::decimal(start as nat))) by {
            broadcast use text::group_stands;

        }
        assert(text::stands_in(whole, number::decimal(start as nat))) by {
            broadcast use text::lemma_stands_added;

        }
    }
    assert(text::stands_in(preview, teller(message.role))) by {
        broadcast use text::group_stands;

    }
    text::lemma_stands_inside(whole, preview, teller(message.role));
    if message.content.len() > 0 {
        let said = message.content + "\n\n"@;
        assert(preview =~= teller(message.role) + ":\n"@ + said);
        assert(text::stands_in(preview, said)) by {
            broadcast use text::group_stands;

        }
        text::lemma_stands_inside(whole, preview, said);
    } else if 0 <= j < message.tool_calls.len() {
        let names = message.tool_calls.map_values(|call: CallModel| call.name);
        split::law_joining_keeps_every_part(names, names, ", "@);
        assert(names[j] == message.tool_calls[j].name);
        assert(text::stands_in(preview, names[j])) by {
            broadcast use text::lemma_stands_added;

        }
        text::lemma_stands_inside(whole, preview, names[j]);
    }
}

/// The row of a profile tells its name, its model and where it is reached, and which one is active.
#[verifier::rlimit(50)]
pub proof fn law_profile_rows_tell_everything(profile: Profile, active: Seq<char>)
    ensures
        ({
            let row = profile_row(profile, active);
            &&& text::stands_in(row, profile.name@)
            &&& text::stands_in(row, profile.model@)
            &&& text::stands_in(row, profile.base_url@)
            &&& row.len() > 0
            &&& row[0] == if profile.name@ == active {
                '*'
            } else {
                ' '
            }
            &&& !profile.tools ==> "  [no tools]"@.is_suffix_of(row)
        }),
{
    reveal_strlit("*");
    reveal_strlit(" ");
    let row = profile_row(profile, active);
    assert(text::stands_in(row, profile.name@)) by {
        broadcast use text::group_stands;

    }
    assert(text::stands_in(row, profile.model@)) by {
        broadcast use text::group_stands;

    }
    assert(text::stands_in(row, profile.base_url@)) by {
        broadcast use text::group_stands;

    }
}

/// The base that the user gave is taken, but for white space around it and slashes behind it; where
/// nothing is left the usual one is.
pub proof fn law_given_bases_are_taken(line: Seq<char>)
    ensures
        line.len() > 0 && !text::is_white(line[0]) && !text::is_white(line.last()) && line.last()
            != '/' ==> base_given(line) == line,
        scan::trimmed(line).len() == 0 ==> base_given(line) == DEFAULT_BASE_URL@,
        base_given(line) != DEFAULT_BASE_URL@ ==> text::stands_in(line, base_given(line))
            && base_given(line).len() > 0 && base_given(line).last() != '/',
{
    let p = scan::one_of(seq!['/']);
    let inner = scan::trimmed(line);
    let base = scan::trim_back(inner, p);
    assert(p('/')) by {
        assert(seq!['/'][0] == '/');
    }
    scan::lemma_span_back_bound(inner, p);
    if line.len() > 0 && !text::is_white(line[0]) && !text::is_white(line.last()) {
        scan::lemma_trimmed_bare(line);
        if line.last() != '/' {
            assert(!p(line.last()));
            assert(scan::span_back(line, p) == 0);
            assert(scan::trim_back(line, p) =~= line);
        }
    }
    if base.len() > 0 {
        assert(base.last() == inner[inner.len() - scan::span_back(inner, p) - 1]);
        assert(!p(base.last()));
    }
    lemma_front_stands(inner, base.len() as int);
    scan::lemma_trimmed_stands(line);
    text::lemma_stands_inside(line, inner, base);
}

proof fn lemma_front_stands(s: Seq<char>, n: int)
    requires
        0 <= n <= s.len(),
    ensures
        text::stands_in(s, s.take(n)),
{
    let at = 0int;
    assert(s.subrange(at, at + s.take(n).len()) =~= s.take(n));
}

/// A server is listed under its name with how many tools it has and whether it can be used.
#[verifier::rlimit(50)]
pub proof fn law_servers_are_listed_with_their_state(status: StatusModel)
    ensures
        mcp_item(status).0 == status.name,
        text::stands_in(mcp_item(status).1, number::decimal(status.tool_count as nat)),
        status.disabled ==> "disabled"@.is_prefix_of(mcp_item(status).1),
        !status.disabled && status.error is Some ==> "unavailable"@.is_prefix_of(
            mcp_item(status).1,
        ),
        !status.disabled && status.error is None ==> "enabled"@.is_prefix_of(mcp_item(status).1),
{
    let shown = mcp_item(status).1;
    assert(text::stands_in(shown, number::decimal(status.tool_count as nat))) by {
        broadcast use text::group_stands;

    }
    let state = if status.disabled {
        "disabled"@
    } else if status.error is Some {
        "unavailable"@
    } else {
        "enabled"@
    };
    assert(state =~= shown.take(state.len() as int));
}

/// Switching to a profile names it and its model, and says so where it has no tools.
#[verifier::rlimit(50)]
pub proof fn law_switching_names_the_profile(profile: ProfileModel)
    ensures
        text::stands_in(switched_note(profile), profile.model + " ("@ + profile.name + ")"@),
        !profile.tools ==> text::stands_in(
            switched_note(profile),
            panel::no_tools_note(profile.name, profile.model),
        ),
{
    let named = profile.model + " ("@ + profile.name + ")"@;
    let rest = if profile.tools {
        seq![]
    } else {
        "\n"@ + panel::no_tools_note(profile.name, profile.model) + "\n"@
    };
    assert(").\n"@ =~= ")"@ + ".\n"@) by {
        reveal_strlit(").\n");
        reveal_strlit(")");
        reveal_strlit(".\n");
    }
    assert(switched_note(profile) =~= "Now using "@ + named + ".\n"@ + rest);
    assert(text::stands_in(switched_note(profile), named)) by {
        broadcast use text::group_stands;

    }
    if !profile.tools {
        assert(text::stands_in(rest, panel::no_tools_note(profile.name, profile.model))) by {
            broadcast use text::group_stands;

        }
        text::lemma_stands_added(
            "Now using "@ + named + ".\n"@,
            rest,
            panel::no_tools_note(profile.name, profile.model),
        );
    }
}

} // verus!
