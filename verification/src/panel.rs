//! What stands beside the conversation: the sidebar, the status, the servers, and the usage of
//! each request.
//!
//! Percentages are floating-point numbers, so they come in here as they are shown.
use crate::config::{Config, Profile};
use crate::mcp::{ConnectionStatus, StatusModel};
use crate::number;
use crate::number::count;
use crate::scan;
use crate::scan::trim;
use crate::snippet;
use crate::snippet::display_path;
use crate::split;
use crate::split::{join, split_lines};
use crate::text;
use crate::text::{cat, cat3};
use vstd::prelude::*;
use vstd::string::*;

verus! {

broadcast use crate::text::group_views;

// ---------------------------------------------------------------------------------------------
// Profiles
// ---------------------------------------------------------------------------------------------

/// The model of a profile, and that it has no tools where it has none.
pub open spec fn label_of(model: Seq<char>, tools: bool) -> Seq<char> {
    if tools {
        model
    } else {
        model + " \u{b7} no tools"@
    }
}

/// The model of a profile, and that it has no tools where it has none.
pub fn model_label(active: &Profile) -> (r: String)
    ensures
        r@ == label_of(active.model@, active.tools),
{
    if active.tools {
        active.model.clone()
    } else {
        cat(active.model.as_str(), " \u{b7} no tools")
    }
}

/// What it means that a profile has no tools.
pub open spec fn no_tools_note(name: Seq<char>, model: Seq<char>) -> Seq<char> {
    "Profile '"@ + name + "' has tools = false, so "@ + model
        + " is offered no tools: it cannot read files, search, or run commands. Set tools = true in kamui.toml, or /model to a profile that has them."@
}

/// What it means that a profile has no tools; nothing where it has them.
pub fn tools_disabled_note(active: &Profile) -> (r: Option<String>)
    ensures
        match r {
            Some(note) => !active.tools && note@ == no_tools_note(active.name@, active.model@),
            None => active.tools,
        },
{
    if active.tools {
        return None;
    }
    let mut note = cat3("Profile '", active.name.as_str(), "' has tools = false, so ");
    note.append(active.model.as_str());
    note.append(
        " is offered no tools: it cannot read files, search, or run commands. Set tools = true in kamui.toml, or /model to a profile that has them.",
    );
    Some(note)
}

/// The views of some pairs of texts.
pub open spec fn pairs(items: Seq<(String, String)>) -> Seq<(Seq<char>, Seq<char>)> {
    Seq::new(items.len(), |i: int| (items[i].0@, items[i].1@))
}

/// The entries of the model picker: every profile, and one to add another.
pub open spec fn model_items(profiles: Seq<Profile>) -> Seq<(Seq<char>, Seq<char>)> {
    Seq::new(
        profiles.len(),
        |i: int| (profiles[i].name@, profiles[i].name@ + " · "@ + profiles[i].model@),
    ).push(("__add__"@, "＋ Add provider / model…"@))
}

/// The entries of the model picker: every profile, and one to add another.
pub fn model_dialog_items(config: &Config) -> (r: Vec<(String, String)>)
    ensures
        pairs(r@) == model_items(config.profiles@),
{
    let ghost wanted = model_items(config.profiles@);
    let mut items: Vec<(String, String)> = Vec::new();
    let mut i: usize = 0;
    assert(pairs(items@) =~= wanted.take(0));
    while i < config.profiles.len()
        invariant
            i <= config.profiles.len(),
            wanted == model_items(config.profiles@),
            pairs(items@) == wanted.take(i as int),
        decreases config.profiles.len() - i,
    {
        let profile = &config.profiles[i];
        let label = cat3(profile.name.as_str(), " · ", profile.model.as_str());
        let ghost before = pairs(items@);
        let name = profile.name.clone();
        assert(wanted[i as int] == (name@, label@));
        items.push((name, label));
        assert(pairs(items@) =~= before.push(wanted[i as int]));
        assert(wanted.take(i + 1) =~= before.push(wanted[i as int]));
        i += 1;
    }
    let ghost before = pairs(items@);
    items.push(("__add__".to_owned(), "＋ Add provider / model…".to_owned()));
    assert(pairs(items@) =~= before.push(("__add__"@, "＋ Add provider / model…"@)));
    assert(pairs(items@) =~= wanted);
    items
}

// ---------------------------------------------------------------------------------------------
// Servers
// ---------------------------------------------------------------------------------------------

/// One server in the sidebar.
pub open spec fn server_row(status: StatusModel) -> Seq<char> {
    match status.error {
        Some(_) => "- "@ + status.name + "\n  unavailable"@,
        None => "- "@ + status.name + "\n  "@ + number::decimal(status.tool_count as nat)
            + " tool(s)"@,
    }
}

/// Every server in the sidebar.
pub open spec fn server_rows(statuses: Seq<StatusModel>) -> Seq<char> {
    split::joined(statuses.map_values(|status: StatusModel| server_row(status)), "\n"@)
}

/// Every server in the sidebar, those that failed too.
pub fn mcp_sidebar_value(statuses: &[ConnectionStatus]) -> (r: String)
    ensures
        r@ == server_rows(text::views(statuses@)),
{
    let ghost wanted = text::views(statuses@).map_values(|status: StatusModel| server_row(status));
    let mut rows: Vec<String> = Vec::new();
    let mut i: usize = 0;
    while i < statuses.len()
        invariant
            i <= statuses.len(),
            wanted == text::views(statuses@).map_values(|status: StatusModel| server_row(status)),
            text::views(rows@) =~= wanted.take(i as int),
        decreases statuses.len() - i,
    {
        let status = &statuses[i];
        let mut row = cat("- ", status.name.as_str());
        if status.error.is_some() {
            row.append("\n  unavailable");
        } else {
            let n = count(status.tool_count);
            row.append("\n  ");
            row.append(n.as_str());
            row.append(" tool(s)");
        }
        assert(row@ == server_row(status@));
        rows.push(row);
        i += 1;
    }
    assert(wanted.take(i as int) =~= wanted);
    join(&rows, "\n")
}

/// One server in the listing.
pub open spec fn server_line(status: StatusModel) -> Seq<char> {
    if status.disabled {
        "  - "@ + status.name + "  disabled (run /mcp toggle "@ + status.name + ")\n"@
    } else {
        match status.error {
            Some(error) => "  - "@ + status.name + "  unavailable\n      "@ + error + "\n"@,
            None => "  - "@ + status.name + "  "@ + number::decimal(status.tool_count as nat)
                + " tool(s)"@ + (if status.trusted {
                " · trusted"@
            } else {
                seq![]
            }) + "\n"@,
        }
    }
}

/// Every server in the listing.
pub open spec fn server_lines(statuses: Seq<StatusModel>) -> Seq<char>
    decreases statuses.len(),
{
    if statuses.len() == 0 {
        seq![]
    } else {
        server_lines(statuses.drop_last()) + server_line(statuses.last())
    }
}

/// How many tools the servers offer that are there.
pub open spec fn live_tools(statuses: Seq<StatusModel>) -> int
    decreases statuses.len(),
{
    if statuses.len() == 0 {
        0
    } else {
        live_tools(statuses.drop_last()) + if !statuses.last().disabled && statuses.last().error is None {
            statuses.last().tool_count
        } else {
            0
        }
    }
}

/// The listing of servers.
pub open spec fn mcp_report(statuses: Seq<StatusModel>, tools: nat) -> Seq<char> {
    let first = "Built-in tools: "@ + number::decimal(tools)
        + " (read_file, list_directory, grep, glob, run_command, patch_file, ...)\n"@;
    if statuses.len() == 0 {
        first + "\nNo MCP servers configured. Add [mcp.<name>] to kamui.toml.\n"@
    } else {
        first + "\nMCP servers:\n"@ + server_lines(statuses) + "\nTotal MCP tools: "@
            + number::decimal(live_tools(statuses) as nat) + "\n"@
    }
}

proof fn lemma_live_tools(statuses: Seq<StatusModel>, n: int)
    requires
        0 <= n <= statuses.len(),
        forall|i: int| 0 <= i < statuses.len() ==> (#[trigger] statuses[i]).tool_count >= 0,
    ensures
        0 <= live_tools(statuses.take(n)) <= live_tools(statuses),
    decreases statuses.len(),
{
    if n == statuses.len() {
        assert(statuses.take(n) =~= statuses);
        if n > 0 {
            lemma_live_tools(statuses.drop_last(), n - 1);
            assert(statuses.drop_last().take(n - 1) =~= statuses.drop_last());
        }
    } else {
        assert(statuses.drop_last().take(n) =~= statuses.take(n));
        lemma_live_tools(statuses.drop_last(), n);
    }
}

fn write_server(status: &ConnectionStatus) -> (r: String)
    ensures
        r@ == server_line(status@),
{
    let mut line = cat("  - ", status.name.as_str());
    if status.disabled {
        line.append("  disabled (run /mcp toggle ");
        line.append(status.name.as_str());
        line.append(")\n");
        return line;
    }
    match &status.error {
        Some(error) => {
            line.append("  unavailable\n      ");
            line.append(error.as_str());
            line.append("\n");
            line
        },
        None => {
            let n = count(status.tool_count);
            line.append("  ");
            line.append(n.as_str());
            line.append(" tool(s)");
            if status.trusted {
                line.append(" · trusted");
            } else {
                assert(line@ + seq![] =~= line@);
            }
            line.append("\n");
            line
        },
    }
}

/// The listing of servers: each with its tools, or why it has none, and how many tools the built-in
/// registry has.
pub fn print_mcp(statuses: &[ConnectionStatus], tools: usize) -> (r: String)
    requires
        live_tools(text::views(statuses@)) <= usize::MAX,
    ensures
        r@ == mcp_report(text::views(statuses@), tools as nat),
{
    let n = count(tools);
    let mut out = cat3(
        "Built-in tools: ",
        n.as_str(),
        " (read_file, list_directory, grep, glob, run_command, patch_file, ...)\n",
    );
    if statuses.len() == 0 {
        out.append("\nNo MCP servers configured. Add [mcp.<name>] to kamui.toml.\n");
        return out;
    }
    let ghost all = text::views(statuses@);
    let mut rows = String::new();
    let mut total: usize = 0;
    let mut i: usize = 0;
    assert(rows@ =~= seq![]);
    while i < statuses.len()
        invariant
            i <= statuses.len(),
            all == text::views(statuses@),
            live_tools(all) <= usize::MAX,
            rows@ == server_lines(all.take(i as int)),
            total == live_tools(all.take(i as int)),
        decreases statuses.len() - i,
    {
        assert(all.take(i + 1).drop_last() =~= all.take(i as int));
        assert(all.take(i + 1).last() == statuses@[i as int]@);
        proof {
            lemma_live_tools(all, i + 1);
        }
        let row = write_server(&statuses[i]);
        rows.append(row.as_str());
        if !statuses[i].disabled && statuses[i].error.is_none() {
            total += statuses[i].tool_count;
        }
        i += 1;
    }
    assert(all.take(i as int) =~= all);
    let sum = count(total);
    out.append("\nMCP servers:\n");
    out.append(rows.as_str());
    out.append("\nTotal MCP tools: ");
    out.append(sum.as_str());
    out.append("\n");
    out
}

// ---------------------------------------------------------------------------------------------
// Git
// ---------------------------------------------------------------------------------------------

/// What the working tree looks like.
#[derive(Debug)]
pub struct GitStatus {
    pub branch: String,
    pub changed: usize,
}

/// What a [`GitStatus`] stands for.
#[verifier::ext_equal]
pub struct GitModel {
    pub branch: Seq<char>,
    pub changed: nat,
}

impl View for GitStatus {
    type V = GitModel;

    open spec fn view(&self) -> GitModel {
        GitModel { branch: self.branch@, changed: self.changed as nat }
    }
}

/// What the output of three commands says of the working tree: that of the current branch, that of
/// the current commit, which counts where there is no branch, and that of the changes. A command
/// that failed has no output.
pub open spec fn git_of(
    branch: Option<Seq<char>>,
    head: Option<Seq<char>>,
    status: Option<Seq<char>>,
) -> Option<GitModel> {
    match (branch, status) {
        (Some(branch), Some(status)) => {
            let name = scan::trimmed(branch);
            let changed = split::lines(status).len();
            if name.len() > 0 {
                Some(GitModel { branch: name, changed })
            } else {
                match head {
                    Some(head) => Some(
                        GitModel { branch: "detached@"@ + scan::trimmed(head), changed },
                    ),
                    None => None,
                }
            }
        },
        _ => None,
    }
}

/// What the output of three commands says of the working tree.
pub fn read_git_status(branch: Option<&str>, head: Option<&str>, status: Option<&str>) -> (r: Option<
    GitStatus,
>)
    ensures
        text::opt_view(r) == git_of(
            text::str_view(branch),
            text::str_view(head),
            text::str_view(status),
        ),
{
    let branch = match branch {
        Some(branch) => branch,
        None => {
            return None;
        },
    };
    let status = match status {
        Some(status) => status,
        None => {
            return None;
        },
    };
    let name = trim(branch);
    let lines = split_lines(status);
    let ghost wanted = split::lines(status@);
    assert(lines@.len() == text::views(lines@).len());
    let changed = lines.len();
    if !name.as_str().is_empty() {
        return Some(GitStatus { branch: name, changed });
    }
    match head {
        Some(head) => {
            let commit = trim(head);
            Some(GitStatus { branch: cat("detached@", commit.as_str()), changed })
        },
        None => None,
    }
}

// ---------------------------------------------------------------------------------------------
// Status
// ---------------------------------------------------------------------------------------------

/// One server in the status.
pub open spec fn status_server(status: StatusModel) -> Seq<char> {
    match status.error {
        Some(_) => "│ MCP      "@ + status.name + "  unavailable\n"@,
        None => "│ MCP      "@ + status.name + "  connected · "@ + number::decimal(
            status.tool_count as nat,
        ) + " tools"@ + (if status.trusted {
            " · trusted"@
        } else {
            seq![]
        }) + "\n"@,
    }
}

/// Every server in the status.
pub open spec fn status_servers(statuses: Seq<StatusModel>) -> Seq<char>
    decreases statuses.len(),
{
    if statuses.len() == 0 {
        seq![]
    } else {
        status_servers(statuses.drop_last()) + status_server(statuses.last())
    }
}

fn write_status_servers(statuses: &[ConnectionStatus]) -> (r: String)
    ensures
        r@ == status_servers(text::views(statuses@)),
{
    let ghost all = text::views(statuses@);
    let mut out = String::new();
    let mut i: usize = 0;
    assert(out@ =~= seq![]);
    while i < statuses.len()
        invariant
            i <= statuses.len(),
            all == text::views(statuses@),
            out@ == status_servers(all.take(i as int)),
        decreases statuses.len() - i,
    {
        assert(all.take(i + 1).drop_last() =~= all.take(i as int));
        assert(all.take(i + 1).last() == statuses@[i as int]@);
        let status = &statuses[i];
        let mut line = cat("│ MCP      ", status.name.as_str());
        if status.error.is_some() {
            line.append("  unavailable\n");
        } else {
            let n = count(status.tool_count);
            line.append("  connected · ");
            line.append(n.as_str());
            line.append(" tools");
            if status.trusted {
                line.append(" · trusted");
            } else {
                assert(line@ + seq![] =~= line@);
            }
            line.append("\n");
        }
        assert(line@ == status_server(status@));
        out.append(line.as_str());
        i += 1;
    }
    assert(all.take(i as int) =~= all);
    out
}

/// What the status shows besides the servers.
#[derive(Debug)]
pub struct StatusFacts {
    pub version: String,
    /// The name of the project's directory.
    pub project: String,
    pub root: String,
    pub git: Option<GitStatus>,
    pub tools: usize,
    pub allow_commands: Vec<String>,
    /// The file that the project's rules come from.
    pub rules: Option<String>,
}

/// The status.
pub open spec fn status_report(facts: StatusFacts, active: Profile, statuses: Seq<StatusModel>) -> Seq<char> {
    let git = match facts.git {
        Some(git) => "│ Git      "@ + git.branch@ + "  ·  "@ + number::decimal(git.changed as nat)
            + " changed\n"@,
        None => "│ Git      not a repository\n"@,
    };
    let allowed = if facts.allow_commands@.len() == 0 {
        seq![]
    } else {
        "│ Allow    "@ + split::joined(text::views(facts.allow_commands@), ", "@) + "\n"@
    };
    let servers = if statuses.len() == 0 {
        "│ MCP      none configured\n"@
    } else {
        status_servers(statuses)
    };
    let rules = match facts.rules {
        Some(name) => "│ Rules    "@ + name@ + "\n"@,
        None => seq![],
    };
    "╭─ Kamui v"@ + facts.version@ + " ─────────────────────────\n│ Project  "@ + facts.project@
        + "  ("@ + snippet::displayed(facts.root@) + ")\n"@ + git + "│ Model    "@ + active.model@
        + "  ("@ + active.name@ + ")\n│ Tools    "@ + number::decimal(facts.tools as nat)
        + " available\n"@ + allowed + servers + rules
        + "╰──────────────────────────────────────\n\n"@
}

/// The status: project, working tree, model, tools, allowed commands, servers and rules.
pub fn print_status(facts: &StatusFacts, active: &Profile, statuses: &[ConnectionStatus]) -> (r: String)
    ensures
        r@ == status_report(*facts, *active, text::views(statuses@)),
{
    let root = display_path(facts.root.as_str());
    let tools = count(facts.tools);
    let mut git = "│ Git      not a repository\n".to_owned();
    if let Some(status) = &facts.git {
        let changed = count(status.changed);
        git = cat3("│ Git      ", status.branch.as_str(), "  ·  ");
        git.append(changed.as_str());
        git.append(" changed\n");
    }
    let mut allowed = String::new();
    assert(allowed@ =~= seq![]);
    if facts.allow_commands.len() > 0 {
        let list = join(&facts.allow_commands, ", ");
        allowed = cat3("│ Allow    ", list.as_str(), "\n");
    }
    let servers = if statuses.len() == 0 {
        "│ MCP      none configured\n".to_owned()
    } else {
        write_status_servers(statuses)
    };
    let mut rules = String::new();
    assert(rules@ =~= seq![]);
    if let Some(name) = &facts.rules {
        rules = cat3("│ Rules    ", name.as_str(), "\n");
    }
    let mut out = cat3(
        "╭─ Kamui v",
        facts.version.as_str(),
        " ─────────────────────────\n│ Project  ",
    );
    out.append(facts.project.as_str());
    out.append("  (");
    out.append(root.as_str());
    out.append(")\n");
    out.append(git.as_str());
    out.append("│ Model    ");
    out.append(active.model.as_str());
    out.append("  (");
    out.append(active.name.as_str());
    out.append(")\n│ Tools    ");
    out.append(tools.as_str());
    out.append(" available\n");
    out.append(allowed.as_str());
    out.append(servers.as_str());
    out.append(rules.as_str());
    out.append("╰──────────────────────────────────────\n\n");
    out
}

// ---------------------------------------------------------------------------------------------
// What is shown
// ---------------------------------------------------------------------------------------------

/// Every profile can be chosen, in order and under its own name, with its model shown; behind them
/// stands the one way to add another.
#[verifier::rlimit(50)]
pub proof fn law_every_profile_can_be_chosen(profiles: Seq<Profile>, i: int)
    requires
        0 <= i < profiles.len(),
    ensures
        model_items(profiles).len() == profiles.len() + 1,
        model_items(profiles)[i].0 == profiles[i].name@,
        text::stands_in(model_items(profiles)[i].1, profiles[i].name@),
        text::stands_in(model_items(profiles)[i].1, profiles[i].model@),
        model_items(profiles).last().0 == "__add__"@,
{
    broadcast use text::group_stands;

}

/// Every server is listed, in order: its name, and how many tools it has, why it is not reached or
/// that it is off.
#[verifier::rlimit(50)]
pub proof fn law_every_server_is_listed(statuses: Seq<StatusModel>, tools: nat, i: int)
    requires
        0 <= i < statuses.len(),
    ensures
        ({
            let report = mcp_report(statuses, tools);
            &&& text::stands_in(report, "  - "@ + statuses[i].name)
            &&& !statuses[i].disabled ==> (statuses[i].error matches Some(error)
                ==> text::stands_in(report, error))
            &&& !statuses[i].disabled && statuses[i].error is None ==> text::stands_in(
                report,
                "  "@ + number::decimal(statuses[i].tool_count as nat) + " tool(s)"@,
            )
            &&& text::stands_in(report, number::decimal(tools))
            &&& text::stands_in(report, number::decimal(live_tools(statuses) as nat))
        }),
{
    let report = mcp_report(statuses, tools);
    let status = statuses[i];
    let line = server_line(status);
    lemma_server_stands(statuses, i);
    assert(text::stands_in(report, line)) by {
        broadcast use text::lemma_stands_added;

    }
    assert(text::stands_in(report, number::decimal(tools))) by {
        broadcast use text::group_stands;

    }
    assert(text::stands_in(report, number::decimal(live_tools(statuses) as nat))) by {
        broadcast use text::group_stands;

    }
    let named = "  - "@ + status.name;
    assert(text::stands_in(line, named)) by {
        broadcast use text::group_stands;

    }
    text::lemma_stands_inside(report, line, named);
    if !status.disabled {
        match status.error {
            Some(error) => {
                assert(text::stands_in(line, error)) by {
                    broadcast use text::group_stands;

                }
                text::lemma_stands_inside(report, line, error);
            },
            None => {
                let shown = "  "@ + number::decimal(status.tool_count as nat) + " tool(s)"@;
                let rest = (if status.trusted {
                    " · trusted"@
                } else {
                    seq![]
                }) + "\n"@;
                assert(line =~= named + shown + rest);
                assert(text::stands_in(line, shown)) by {
                    broadcast use text::group_stands;

                }
                text::lemma_stands_inside(report, line, shown);
            },
        }
    }
}

#[verifier::rlimit(50)]
proof fn lemma_server_stands(statuses: Seq<StatusModel>, i: int)
    requires
        0 <= i < statuses.len(),
    ensures
        text::stands_in(server_lines(statuses), server_line(statuses[i])),
    decreases statuses.len(),
{
    broadcast use text::group_stands;

    if i < statuses.len() - 1 {
        lemma_server_stands(statuses.drop_last(), i);
        assert(statuses.drop_last()[i] == statuses[i]);
    }
}

/// The tools of the servers that are reached are counted, all of them and no others.
pub proof fn law_reached_tools_are_counted(
    first: Seq<StatusModel>,
    second: Seq<StatusModel>,
    status: StatusModel,
)
    ensures
        live_tools(first + second) == live_tools(first) + live_tools(second),
        status.disabled || status.error is Some ==> live_tools(seq![status]) == 0,
        !status.disabled && status.error is None ==> live_tools(seq![status]) == status.tool_count,
    decreases second.len(),
{
    reveal_with_fuel(live_tools, 2);
    assert(seq![status].drop_last() =~= seq![]);
    if second.len() == 0 {
        assert(first + second =~= first);
    } else {
        law_reached_tools_are_counted(first, second.drop_last(), status);
        assert((first + second).drop_last() =~= first + second.drop_last());
        assert((first + second).last() == second.last());
    }
}

/// Every server stands in the sidebar, with its name and what there is of it.
#[verifier::rlimit(50)]
pub proof fn law_every_server_stands_in_the_sidebar(statuses: Seq<StatusModel>, i: int)
    requires
        0 <= i < statuses.len(),
    ensures
        text::stands_in(server_rows(statuses), "- "@ + statuses[i].name),
        statuses[i].error is None ==> text::stands_in(
            server_rows(statuses),
            number::decimal(statuses[i].tool_count as nat),
        ),
        statuses[i].error is Some ==> text::stands_in(server_rows(statuses), "\n  unavailable"@),
{
    let rows = statuses.map_values(|status: StatusModel| server_row(status));
    let row = server_row(statuses[i]);
    let named = "- "@ + statuses[i].name;
    let shown = match statuses[i].error {
        Some(_) => "\n  unavailable"@,
        None => number::decimal(statuses[i].tool_count as nat),
    };
    split::law_joining_keeps_every_part(rows, rows, "\n"@);
    assert(rows[i] == row);
    assert(text::stands_in(row, named)) by {
        broadcast use text::group_stands;

    }
    assert(text::stands_in(row, shown)) by {
        broadcast use text::group_stands;

    }
    text::lemma_stands_inside(server_rows(statuses), row, named);
    text::lemma_stands_inside(server_rows(statuses), row, shown);
}

/// The branch is told as the system told it, or the commit where there is none; every changed file
/// is counted; and where nothing could be found out nothing is told.
pub proof fn law_branches_are_told(branch: Seq<char>, head: Seq<char>, status: Seq<char>)
    requires
        branch.len() > 0,
        !text::is_white(branch[0]),
        !text::is_white(branch.last()),
    ensures
        git_of(Some(branch), Some(head), Some(status)) matches Some(git) && git.branch == branch
            && git.changed == split::lines(status).len(),
        git_of(Some(branch), None, Some(status)) matches Some(git) && git.branch == branch,
        git_of(Some(Seq::empty()), Some(head), Some(status)) matches Some(git) && git.branch
            == "detached@"@ + scan::trimmed(head) && git.changed == split::lines(status).len(),
        git_of(None, Some(head), Some(status)) is None,
        git_of(Some(branch), Some(head), None) is None,
{
    scan::lemma_trimmed_bare(branch);
    let none: Seq<char> = Seq::empty();
    assert(scan::trimmed(none).len() == 0) by {
        scan::lemma_span_bound(none, scan::white());
    }
}

/// The status tells everything that it is about: version, project and root, branch, model and
/// profile, the tools, every command that may run unasked, every server and the rules.
pub proof fn law_status_tells_everything(
    facts: StatusFacts,
    active: Profile,
    statuses: Seq<StatusModel>,
    i: int,
)
    ensures
        ({
            let report = status_report(facts, active, statuses);
            &&& text::stands_in(report, facts.version@)
            &&& text::stands_in(report, facts.project@)
            &&& text::stands_in(report, snippet::displayed(facts.root@))
            &&& text::stands_in(report, active.model@)
            &&& text::stands_in(report, active.name@)
            &&& text::stands_in(report, number::decimal(facts.tools as nat))
            &&& facts.git matches Some(git) ==> text::stands_in(report, git.branch@)
                && text::stands_in(report, number::decimal(git.changed as nat) + " changed\n"@)
            &&& 0 <= i < facts.allow_commands@.len() ==> text::stands_in(
                report,
                facts.allow_commands@[i]@,
            )
            &&& 0 <= i < statuses.len() ==> text::stands_in(report, status_server(statuses[i]))
            &&& facts.rules matches Some(name) ==> text::stands_in(report, name@)
        }),
{
    lemma_status_tells(facts, active, statuses, facts.version@);
    lemma_status_tells(facts, active, statuses, facts.project@);
    lemma_status_tells(facts, active, statuses, snippet::displayed(facts.root@));
    lemma_status_tells(facts, active, statuses, active.model@);
    lemma_status_tells(facts, active, statuses, active.name@);
    lemma_status_tells(facts, active, statuses, number::decimal(facts.tools as nat));
    if let Some(git) = facts.git {
        let changed = number::decimal(git.changed as nat) + " changed\n"@;
        lemma_status_tells(facts, active, statuses, git.branch@);
        lemma_status_tells(facts, active, statuses, changed);
    }
    if 0 <= i < facts.allow_commands@.len() {
        let all = text::views(facts.allow_commands@);
        split::law_joining_keeps_every_part(all, all, ", "@);
        assert(all[i] == facts.allow_commands@[i]@);
        lemma_status_tells(facts, active, statuses, facts.allow_commands@[i]@);
    }
    if 0 <= i < statuses.len() {
        lemma_status_server_stands(statuses, i);
        lemma_status_tells(facts, active, statuses, status_server(statuses[i]));
    }
    if let Some(name) = facts.rules {
        lemma_status_tells(facts, active, statuses, name@);
    }
}

#[verifier::rlimit(50)]
proof fn lemma_status_server_stands(statuses: Seq<StatusModel>, i: int)
    requires
        0 <= i < statuses.len(),
    ensures
        text::stands_in(status_servers(statuses), status_server(statuses[i])),
    decreases statuses.len(),
{
    broadcast use text::group_stands;

    if i < statuses.len() - 1 {
        lemma_status_server_stands(statuses.drop_last(), i);
        assert(statuses.drop_last()[i] == statuses[i]);
    }
}

#[verifier::rlimit(50)]
proof fn lemma_status_tells(
    facts: StatusFacts,
    active: Profile,
    statuses: Seq<StatusModel>,
    part: Seq<char>,
)
    requires
        ({
            ||| part == facts.version@
            ||| part == facts.project@
            ||| part == snippet::displayed(facts.root@)
            ||| part == active.model@
            ||| part == active.name@
            ||| part == number::decimal(facts.tools as nat)
            ||| facts.git matches Some(git) && (part == git.branch@ || part == number::decimal(
                git.changed as nat,
            ) + " changed\n"@)
            ||| facts.allow_commands@.len() > 0 && text::stands_in(
                split::joined(text::views(facts.allow_commands@), ", "@),
                part,
            )
            ||| statuses.len() > 0 && text::stands_in(status_servers(statuses), part)
            ||| facts.rules matches Some(name) && part == name@
        }),
    ensures
        text::stands_in(status_report(facts, active, statuses), part),
{
    let git = match facts.git {
        Some(git) => "│ Git      "@ + git.branch@ + "  ·  "@ + number::decimal(git.changed as nat)
            + " changed\n"@,
        None => "│ Git      not a repository\n"@,
    };
    if let Some(found) = facts.git {
        let changed = number::decimal(found.changed as nat) + " changed\n"@;
        assert(git =~= "│ Git      "@ + found.branch@ + "  ·  "@ + changed);
    }
    broadcast use text::group_stands;

}

/// A model is shown by its own name, and what it lacks behind it.
pub proof fn law_models_are_shown_by_name(model: Seq<char>)
    ensures
        label_of(model, true) == model,
        model.is_prefix_of(label_of(model, false)),
        label_of(model, false) != model,
{
    reveal_strlit(" \u{b7} no tools");
    assert(model =~= label_of(model, false).take(model.len() as int));
    assert(label_of(model, false).len() > model.len());
}

} // verus!
