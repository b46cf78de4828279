//! What a line means: a shell command, a slash command and which one, or a prompt.
use crate::commands;
use crate::commands::nearest_command;
use crate::scan;
use crate::scan::{same_ignoring_case, starts_with, strip_prefix, trim};
use crate::split;
use crate::split::split_once;
use crate::text;
use crate::text::{cat3, chars_of, is_whitespace, same, slice_text};
use crate::tui;
use vstd::prelude::*;
use vstd::string::*;

verus! {

broadcast use crate::text::group_views;

// ---------------------------------------------------------------------------------------------
// Lines
// ---------------------------------------------------------------------------------------------

/// What a line asks for. `T` is text: `String` in a value, `Seq<char>` in its model.
#[derive(Debug)]
pub enum Line<T> {
    Exit,
    Nothing,
    /// A shell command without a command.
    ShellUsage,
    /// A shell command, to be run as it is.
    Shell(T),
    /// Anything else, without space around it.
    Text(T),
}

impl View for Line<String> {
    type V = Line<Seq<char>>;

    open spec fn view(&self) -> Line<Seq<char>> {
        match self {
            Line::Exit => Line::Exit,
            Line::Nothing => Line::Nothing,
            Line::ShellUsage => Line::ShellUsage,
            Line::Shell(command) => Line::Shell(command@),
            Line::Text(input) => Line::Text(input@),
        }
    }
}

/// What a line asks for.
pub open spec fn read(line: Seq<char>) -> Line<Seq<char>> {
    let input = scan::trimmed(line);
    if scan::lower(input) == scan::lower("exit"@) || input == "/exit"@ {
        Line::Exit
    } else if input.len() == 0 {
        Line::Nothing
    } else if scan::has_prefix(input, "!"@) {
        let command = scan::trimmed(input.skip("!"@.len() as int));
        if command.len() == 0 {
            Line::ShellUsage
        } else {
            Line::Shell(command)
        }
    } else {
        Line::Text(input)
    }
}

/// What a line asks for.
pub fn read_input(line: &str) -> (r: Line<String>)
    ensures
        r@ == read(line@),
{
    let input = trim(line);
    if same_ignoring_case(input.as_str(), "exit") || same(input.as_str(), "/exit") {
        return Line::Exit;
    }
    if input.as_str().is_empty() {
        return Line::Nothing;
    }
    if let Some(rest) = strip_prefix(input.as_str(), "!") {
        let command = trim(rest.as_str());
        if command.as_str().is_empty() {
            return Line::ShellUsage;
        }
        return Line::Shell(command);
    }
    Line::Text(input)
}

/// A slash command and its argument.
pub open spec fn command_in(input: Seq<char>) -> (Seq<char>, Seq<char>) {
    match split::cut(input, ' ') {
        Some(pair) => pair,
        None => (input, seq![]),
    }
}

/// A slash command and its argument: what stands before and behind the first space.
pub fn split_command(input: &str) -> (r: (String, String))
    ensures
        (r.0@, r.1@) == command_in(input@),
{
    match split_once(input, ' ') {
        Some(pair) => pair,
        None => {
            let none = String::new();
            assert(none@ =~= seq![]);
            (input.to_owned(), none)
        },
    }
}

// ---------------------------------------------------------------------------------------------
// Routes
// ---------------------------------------------------------------------------------------------

/// Who takes up a slash command.
#[derive(Clone, Copy, Debug, PartialEq, Eq, Structural)]
pub enum Route {
    ToggleHelp,
    /// The wizard that adds a provider.
    AddProvider,
    /// A model was picked in that wizard.
    PickedModel,
    ModelPicker,
    SessionPicker,
    CustomCommands,
    Warnings,
    Expand,
    Collapse,
    Skills,
    Theme,
    Profile,
    Status,
    Mcp,
    Compact,
    Mode,
    Plan,
    Undo,
    Jobs,
    Index,
    /// The commands on sessions and what is stored.
    Session,
}

/// Who takes up a slash command where the screen has pickers.
pub open spec fn picked(command: Seq<char>, argument: Seq<char>) -> Option<Route> {
    if command == "/help"@ {
        Some(Route::ToggleHelp)
    } else if command == "/model"@ {
        if argument == "__add__"@ {
            Some(Route::AddProvider)
        } else if scan::has_prefix(argument, "__picked__ "@) {
            Some(Route::PickedModel)
        } else if argument.len() == 0 {
            Some(Route::ModelPicker)
        } else {
            None
        }
    } else if command == "/sessions"@ || (command == "/resume"@ && scan::trimmed(argument).len()
        == 0) {
        Some(Route::SessionPicker)
    } else if command == "/models"@ {
        Some(Route::ModelPicker)
    } else {
        None
    }
}

/// Who takes up a slash command where it is no matter of pickers.
pub open spec fn plain_route(command: Seq<char>) -> Route {
    if command == "/commands"@ {
        Route::CustomCommands
    } else if command == "/warnings"@ || command == "/warning"@ {
        Route::Warnings
    } else if command == "/expand"@ {
        Route::Expand
    } else if command == "/collapse"@ {
        Route::Collapse
    } else if command == "/skills"@ {
        Route::Skills
    } else if command == "/theme"@ || command == "/themes"@ {
        Route::Theme
    } else if command == "/model"@ {
        Route::Profile
    } else if command == "/status"@ {
        Route::Status
    } else if command == "/mcp"@ {
        Route::Mcp
    } else if command == "/compact"@ {
        Route::Compact
    } else if command == "/mode"@ {
        Route::Mode
    } else if command == "/plan"@ {
        Route::Plan
    } else if command == "/undo"@ {
        Route::Undo
    } else if command == "/jobs"@ {
        Route::Jobs
    } else if command == "/index"@ {
        Route::Index
    } else {
        Route::Session
    }
}

/// Who takes up a slash command.
pub open spec fn routed(command: Seq<char>, argument: Seq<char>, tui: bool) -> Route {
    match picked(command, argument) {
        Some(route) => if tui {
            route
        } else {
            plain_route(command)
        },
        None => plain_route(command),
    }
}

fn pick_route(command: &str, argument: &str) -> (r: Option<Route>)
    ensures
        r == picked(command@, argument@),
{
    if same(command, "/help") {
        Some(Route::ToggleHelp)
    } else if same(command, "/model") {
        if same(argument, "__add__") {
            Some(Route::AddProvider)
        } else if starts_with(argument, "__picked__ ") {
            Some(Route::PickedModel)
        } else if argument.is_empty() {
            Some(Route::ModelPicker)
        } else {
            None
        }
    } else if same(command, "/sessions") {
        Some(Route::SessionPicker)
    } else if same(command, "/resume") {
        let id = trim(argument);
        proof {
            reveal_strlit("/resume");
            reveal_strlit("/models");
            reveal_strlit("/sessions");
            assert("/resume"@[1] == 'r');
            assert("/models"@[1] == 'm');
            assert("/sessions"@[1] == 's');
        }
        if id.as_str().is_empty() {
            Some(Route::SessionPicker)
        } else {
            None
        }
    } else if same(command, "/models") {
        Some(Route::ModelPicker)
    } else {
        None
    }
}

/// Who takes up a slash command. `tui` tells whether the screen has pickers.
pub fn route(command: &str, argument: &str, tui: bool) -> (r: Route)
    ensures
        r == routed(command@, argument@, tui),
{
    if tui {
        if let Some(picked) = pick_route(command, argument) {
            return picked;
        }
    }
    if same(command, "/commands") {
        Route::CustomCommands
    } else if same(command, "/warnings") || same(command, "/warning") {
        Route::Warnings
    } else if same(command, "/expand") {
        Route::Expand
    } else if same(command, "/collapse") {
        Route::Collapse
    } else if same(command, "/skills") {
        Route::Skills
    } else if same(command, "/theme") || same(command, "/themes") {
        Route::Theme
    } else if same(command, "/model") {
        Route::Profile
    } else if same(command, "/status") {
        Route::Status
    } else if same(command, "/mcp") {
        Route::Mcp
    } else if same(command, "/compact") {
        Route::Compact
    } else if same(command, "/mode") {
        Route::Mode
    } else if same(command, "/plan") {
        Route::Plan
    } else if same(command, "/undo") {
        Route::Undo
    } else if same(command, "/jobs") {
        Route::Jobs
    } else if same(command, "/index") {
        Route::Index
    } else {
        Route::Session
    }
}

// ---------------------------------------------------------------------------------------------
// Commands on sessions
// ---------------------------------------------------------------------------------------------

/// A command on sessions and what is stored. `T` is text: `String` in a value, `Seq<char>` in its
/// model.
#[derive(Debug)]
pub enum SessionCommand<T> {
    Help,
    New,
    Sessions,
    Resume { id: T },
    Delete { id: T },
    Rename { id: T, title: T },
    Search { needle: T },
    Stats,
    Usage,
    Memory,
    ForgetAll,
    Forget { matching: T },
    Unknown { command: T },
}

impl View for SessionCommand<String> {
    type V = SessionCommand<Seq<char>>;

    open spec fn view(&self) -> SessionCommand<Seq<char>> {
        match self {
            SessionCommand::Help => SessionCommand::Help,
            SessionCommand::New => SessionCommand::New,
            SessionCommand::Sessions => SessionCommand::Sessions,
            SessionCommand::Resume { id } => SessionCommand::Resume { id: id@ },
            SessionCommand::Delete { id } => SessionCommand::Delete { id: id@ },
            SessionCommand::Rename { id, title } => SessionCommand::Rename {
                id: id@,
                title: title@,
            },
            SessionCommand::Search { needle } => SessionCommand::Search { needle: needle@ },
            SessionCommand::Stats => SessionCommand::Stats,
            SessionCommand::Usage => SessionCommand::Usage,
            SessionCommand::Memory => SessionCommand::Memory,
            SessionCommand::ForgetAll => SessionCommand::ForgetAll,
            SessionCommand::Forget { matching } => SessionCommand::Forget { matching: matching@ },
            SessionCommand::Unknown { command } => SessionCommand::Unknown { command: command@ },
        }
    }
}

/// Where the first white space stands, or the length where there is none.
pub open spec fn first_white(s: Seq<char>) -> nat
    decreases s.len(),
{
    if s.len() == 0 || text::is_white(s[0]) {
        0
    } else {
        1 + first_white(s.skip(1))
    }
}

proof fn lemma_first_white(s: Seq<char>, i: int)
    requires
        0 <= i <= s.len(),
        forall|j: int| 0 <= j < i ==> !text::is_white(#[trigger] s[j]),
        i < s.len() ==> text::is_white(s[i]),
    ensures
        first_white(s) == i,
    decreases i,
{
    if i > 0 {
        assert(!text::is_white(s[0]));
        assert(forall|j: int| 0 <= j < i - 1 ==> (#[trigger] s.skip(1)[j]) == s[j + 1]);
        lemma_first_white(s.skip(1), i - 1);
    }
}

/// An id and a title: what stands before and behind the first white space.
pub open spec fn id_and_title(argument: Seq<char>) -> (Seq<char>, Seq<char>) {
    let i = first_white(argument) as int;
    if i < argument.len() {
        (argument.take(i), scan::trimmed(argument.skip(i + 1)))
    } else {
        (seq![], seq![])
    }
}

fn split_title(argument: &str) -> (r: (String, String))
    ensures
        (r.0@, r.1@) == id_and_title(argument@),
{
    let chars = chars_of(argument);
    let mut i: usize = 0;
    while i < chars.len() && !is_whitespace(chars[i])
        invariant
            i <= chars.len(),
            chars@ == argument@,
            forall|j: int| 0 <= j < i ==> !text::is_white(#[trigger] argument@[j]),
        decreases chars.len() - i,
    {
        i += 1;
    }
    proof {
        lemma_first_white(argument@, i as int);
    }
    if i < chars.len() {
        let id = slice_text(&chars, 0, i);
        let rest = slice_text(&chars, i + 1, chars.len());
        assert(id@ =~= argument@.take(i as int));
        assert(rest@ =~= argument@.skip(i + 1));
        (id, trim(rest.as_str()))
    } else {
        let none = String::new();
        assert(none@ =~= seq![]);
        (none.clone(), none)
    }
}

/// What a command on sessions asks for, or how it is used.
pub open spec fn session_command(command: Seq<char>, argument: Seq<char>) -> Result<
    SessionCommand<Seq<char>>,
    Seq<char>,
> {
    let a = scan::trimmed(argument);
    if command == "/help"@ {
        Ok(SessionCommand::Help)
    } else if command == "/new"@ {
        Ok(SessionCommand::New)
    } else if command == "/sessions"@ {
        Ok(SessionCommand::Sessions)
    } else if command == "/resume"@ {
        Ok(SessionCommand::Resume { id: a })
    } else if command == "/delete"@ {
        Ok(SessionCommand::Delete { id: a })
    } else if command == "/rename"@ {
        let (id, title) = id_and_title(a);
        if id.len() == 0 || title.len() == 0 {
            Err("usage: /rename <id> <new title>"@)
        } else {
            Ok(SessionCommand::Rename { id, title })
        }
    } else if command == "/search"@ {
        if a.len() == 0 {
            Err("usage: /search <text>"@)
        } else {
            Ok(SessionCommand::Search { needle: a })
        }
    } else if command == "/stats"@ {
        Ok(SessionCommand::Stats)
    } else if command == "/usage"@ {
        Ok(SessionCommand::Usage)
    } else if command == "/memory"@ {
        Ok(SessionCommand::Memory)
    } else if command == "/forget"@ {
        if a.len() == 0 {
            Err("usage: /forget <text> or /forget all"@)
        } else if scan::lower(a) == scan::lower("all"@) {
            Ok(SessionCommand::ForgetAll)
        } else {
            Ok(SessionCommand::Forget { matching: a })
        }
    } else {
        Ok(SessionCommand::Unknown { command })
    }
}

/// What a command on sessions asks for, or how it is used.
pub fn parse_session_command(command: &str, argument: &str) -> (r: Result<
    SessionCommand<String>,
    String,
>)
    ensures
        match r {
            Ok(parsed) => session_command(command@, argument@) == Ok::<
                SessionCommand<Seq<char>>,
                Seq<char>,
            >(parsed@),
            Err(usage) => session_command(command@, argument@) == Err::<
                SessionCommand<Seq<char>>,
                Seq<char>,
            >(usage@),
        },
{
    let a = trim(argument);
    if same(command, "/help") {
        Ok(SessionCommand::Help)
    } else if same(command, "/new") {
        Ok(SessionCommand::New)
    } else if same(command, "/sessions") {
        Ok(SessionCommand::Sessions)
    } else if same(command, "/resume") {
        Ok(SessionCommand::Resume { id: a })
    } else if same(command, "/delete") {
        Ok(SessionCommand::Delete { id: a })
    } else if same(command, "/rename") {
        let (id, title) = split_title(a.as_str());
        if id.as_str().is_empty() || title.as_str().is_empty() {
            Err("usage: /rename <id> <new title>".to_owned())
        } else {
            Ok(SessionCommand::Rename { id, title })
        }
    } else if same(command, "/search") {
        if a.as_str().is_empty() {
            Err("usage: /search <text>".to_owned())
        } else {
            Ok(SessionCommand::Search { needle: a })
        }
    } else if same(command, "/stats") {
        Ok(SessionCommand::Stats)
    } else if same(command, "/usage") {
        Ok(SessionCommand::Usage)
    } else if same(command, "/memory") {
        Ok(SessionCommand::Memory)
    } else if same(command, "/forget") {
        if a.as_str().is_empty() {
            Err("usage: /forget <text> or /forget all".to_owned())
        } else if same_ignoring_case(a.as_str(), "all") {
            Ok(SessionCommand::ForgetAll)
        } else {
            Ok(SessionCommand::Forget { matching: a })
        }
    } else {
        Ok(SessionCommand::Unknown { command: command.to_owned() })
    }
}

/// What is told of a command that nobody knows.
pub open spec fn unknown_words(command: Seq<char>) -> Seq<char> {
    match commands::nearest(command) {
        Some(name) => "Unknown command \""@ + command + "\". Did you mean /"@ + name
            + "? Type /help for the full list.\n"@,
        None => "Unknown command \""@ + command + "\". Type /help for available commands.\n"@,
    }
}

/// What is told of a command that nobody knows: its name, and the closest that there is.
pub fn unknown_command(command: &str) -> (r: String)
    requires
        command@.len() < usize::MAX,
    ensures
        r@ == unknown_words(command@),
{
    match nearest_command(command) {
        Some(name) => {
            let mut out = cat3("Unknown command \"", command, "\". Did you mean /");
            out.append(name.as_str());
            out.append("? Type /help for the full list.\n");
            out
        },
        None => cat3(
            "Unknown command \"",
            command,
            "\". Type /help for available commands.\n",
        ),
    }
}

/// Somebody takes up the command.
pub open spec fn taken_up(command: Seq<char>, argument: Seq<char>, tui: bool) -> bool {
    ||| read(command) is Exit
    ||| routed(command, argument, tui) != Route::Session
    ||| !(session_command(command, argument) matches Ok(SessionCommand::Unknown { command: _ }))
}

proof fn lemma_slashed_names()
    ensures
        "/"@ + "help"@ == "/help"@,
        "/"@ + "new"@ == "/new"@,
        "/"@ + "sessions"@ == "/sessions"@,
        "/"@ + "resume"@ == "/resume"@,
        "/"@ + "model"@ == "/model"@,
        "/"@ + "rename"@ == "/rename"@,
        "/"@ + "search"@ == "/search"@,
        "/"@ + "compact"@ == "/compact"@,
        "/"@ + "undo"@ == "/undo"@,
        "/"@ + "jobs"@ == "/jobs"@,
        "/"@ + "index"@ == "/index"@,
        "/"@ + "commands"@ == "/commands"@,
        "/"@ + "delete"@ == "/delete"@,
        "/"@ + "stats"@ == "/stats"@,
        "/"@ + "usage"@ == "/usage"@,
        "/"@ + "status"@ == "/status"@,
        "/"@ + "mcp"@ == "/mcp"@,
        "/"@ + "memory"@ == "/memory"@,
        "/"@ + "forget"@ == "/forget"@,
        "/"@ + "expand"@ == "/expand"@,
        "/"@ + "collapse"@ == "/collapse"@,
        "/"@ + "exit"@ == "/exit"@,
        "/"@ + "plan"@ == "/plan"@,
        "/"@ + "mode"@ == "/mode"@,
        "/"@ + "skills"@ == "/skills"@,
        "/"@ + "warnings"@ == "/warnings"@,
        "/"@ + "theme"@ == "/theme"@,
        "/"@ + "themes"@ == "/themes"@,
{
    reveal_strlit("/");
    reveal_strlit("help");
    reveal_strlit("/help");
    reveal_strlit("new");
    reveal_strlit("/new");
    reveal_strlit("sessions");
    reveal_strlit("/sessions");
    reveal_strlit("resume");
    reveal_strlit("/resume");
    reveal_strlit("model");
    reveal_strlit("/model");
    reveal_strlit("rename");
    reveal_strlit("/rename");
    reveal_strlit("search");
    reveal_strlit("/search");
    reveal_strlit("compact");
    reveal_strlit("/compact");
    reveal_strlit("undo");
    reveal_strlit("/undo");
    reveal_strlit("jobs");
    reveal_strlit("/jobs");
    reveal_strlit("index");
    reveal_strlit("/index");
    reveal_strlit("commands");
    reveal_strlit("/commands");
    reveal_strlit("delete");
    reveal_strlit("/delete");
    reveal_strlit("stats");
    reveal_strlit("/stats");
    reveal_strlit("usage");
    reveal_strlit("/usage");
    reveal_strlit("status");
    reveal_strlit("/status");
    reveal_strlit("mcp");
    reveal_strlit("/mcp");
    reveal_strlit("memory");
    reveal_strlit("/memory");
    reveal_strlit("forget");
    reveal_strlit("/forget");
    reveal_strlit("expand");
    reveal_strlit("/expand");
    reveal_strlit("collapse");
    reveal_strlit("/collapse");
    reveal_strlit("exit");
    reveal_strlit("/exit");
    reveal_strlit("plan");
    reveal_strlit("/plan");
    reveal_strlit("mode");
    reveal_strlit("/mode");
    reveal_strlit("skills");
    reveal_strlit("/skills");
    reveal_strlit("warnings");
    reveal_strlit("/warnings");
    reveal_strlit("theme");
    reveal_strlit("/theme");
    reveal_strlit("themes");
    reveal_strlit("/themes");
    assert("/"@ + "help"@ =~= "/help"@);
    assert("/"@ + "new"@ =~= "/new"@);
    assert("/"@ + "sessions"@ =~= "/sessions"@);
    assert("/"@ + "resume"@ =~= "/resume"@);
    assert("/"@ + "model"@ =~= "/model"@);
    assert("/"@ + "rename"@ =~= "/rename"@);
    assert("/"@ + "search"@ =~= "/search"@);
    assert("/"@ + "compact"@ =~= "/compact"@);
    assert("/"@ + "undo"@ =~= "/undo"@);
    assert("/"@ + "jobs"@ =~= "/jobs"@);
    assert("/"@ + "index"@ =~= "/index"@);
    assert("/"@ + "commands"@ =~= "/commands"@);
    assert("/"@ + "delete"@ =~= "/delete"@);
    assert("/"@ + "stats"@ =~= "/stats"@);
    assert("/"@ + "usage"@ =~= "/usage"@);
    assert("/"@ + "status"@ =~= "/status"@);
    assert("/"@ + "mcp"@ =~= "/mcp"@);
    assert("/"@ + "memory"@ =~= "/memory"@);
    assert("/"@ + "forget"@ =~= "/forget"@);
    assert("/"@ + "expand"@ =~= "/expand"@);
    assert("/"@ + "collapse"@ =~= "/collapse"@);
    assert("/"@ + "exit"@ =~= "/exit"@);
    assert("/"@ + "plan"@ =~= "/plan"@);
    assert("/"@ + "mode"@ =~= "/mode"@);
    assert("/"@ + "skills"@ =~= "/skills"@);
    assert("/"@ + "warnings"@ =~= "/warnings"@);
    assert("/"@ + "theme"@ =~= "/theme"@);
    assert("/"@ + "themes"@ =~= "/themes"@);
}

/// Every command that the menu advertises is taken up by somebody, with and without pickers and
/// whatever its argument.
pub proof fn law_every_advertised_command_is_taken_up(i: int, argument: Seq<char>, tui: bool)
    requires
        0 <= i < tui::builtin_names().len(),
    ensures
        taken_up("/"@ + tui::builtin_names()[i], argument, tui),
{
    lemma_slashed_names();
    reveal_strlit("/exit");
    assert("/exit"@.len() == 5);
    assert(!text::is_white("/exit"@[0]));
    assert(!text::is_white("/exit"@[4]));
    scan::lemma_trimmed_bare("/exit"@);
}

// ---------------------------------------------------------------------------------------------
// What becomes of a line
// ---------------------------------------------------------------------------------------------

/// A line is taken whole: behind an exclamation mark all of it is for the shell, anything else but a
/// wish to leave is taken as it was typed, and only a blank line is nothing. White space around it
/// makes no difference.
pub proof fn law_lines_are_taken_whole(line: Seq<char>)
    requires
        line.len() > 0,
        !text::is_white(line[0]),
        !text::is_white(line.last()),
    ensures
        line[0] != '!' && line[0] != '/' && line[0] != 'e' && line[0] != 'E' ==> read(line)
            == Line::Text(line),
        line[0] == '!' && line.len() > 1 && !text::is_white(line[1]) ==> read(line) == Line::Shell(
            line.skip(1),
        ),
        line.len() != 4 && line.len() != 5 && line[0] != '!' ==> read(line) == Line::Text(line),
        read(line) is Exit ==> line.len() == 4 || line.len() == 5,
        !(read(line) is Nothing),
{
    reveal_strlit("exit");
    reveal_strlit("/exit");
    reveal_strlit("!");
    scan::lemma_trimmed_bare(line);
    assert(line.subrange(0, 1) =~= seq![line[0]]);
    assert("!"@ =~= seq!['!']);
    if line[0] == '!' {
        assert(scan::has_prefix(line, "!"@));
    } else if scan::has_prefix(line, "!"@) {
        assert(line.subrange(0, 1)[0] == '!');
    }
    if scan::lower(line) == scan::lower("exit"@) {
        assert(scan::lower(line)[0] == 'e');
        scan::law_lower_case(line, 0);
    }
    if line[0] == '!' && line.len() > 1 && !text::is_white(line[1]) {
        let rest = line.skip(1);
        assert(rest.last() == line.last());
        scan::lemma_trimmed_bare(rest);
    }
}

/// A command and what follows it are the line: put together with the space between them they give it
/// back.
pub proof fn law_commands_and_arguments_are_the_line(input: Seq<char>)
    ensures
        !command_in(input).0.contains(' '),
        input.contains(' ') ==> command_in(input).0.push(' ') + command_in(input).1 == input,
        !input.contains(' ') ==> command_in(input).0 == input && command_in(input).1.len() == 0,
{
    split::law_cutting_loses_nothing(input, ' ');
    if let Some(pair) = split::cut(input, ' ') {
        let all = pair.0.push(' ') + pair.1;
        assert(all[pair.0.len() as int] == ' ');
        assert(input.contains(all[pair.0.len() as int]));
    }
}

/// Every command that is not about sessions is taken up by its own part of the program, whatever
/// follows it and wherever it is typed.
pub proof fn law_commands_go_where_they_belong(argument: Seq<char>, tui: bool)
    ensures
        routed("/commands"@, argument, tui) == Route::CustomCommands,
        routed("/warnings"@, argument, tui) == Route::Warnings,
        routed("/expand"@, argument, tui) == Route::Expand,
        routed("/collapse"@, argument, tui) == Route::Collapse,
        routed("/skills"@, argument, tui) == Route::Skills,
        routed("/theme"@, argument, tui) == Route::Theme,
        routed("/themes"@, argument, tui) == Route::Theme,
        routed("/status"@, argument, tui) == Route::Status,
        routed("/mcp"@, argument, tui) == Route::Mcp,
        routed("/compact"@, argument, tui) == Route::Compact,
        routed("/mode"@, argument, tui) == Route::Mode,
        routed("/plan"@, argument, tui) == Route::Plan,
        routed("/undo"@, argument, tui) == Route::Undo,
        routed("/jobs"@, argument, tui) == Route::Jobs,
        routed("/index"@, argument, tui) == Route::Index,
        routed("/model"@, argument, false) == Route::Profile,
        routed("/models"@, argument, true) == Route::ModelPicker,
        routed("/sessions"@, argument, true) == Route::SessionPicker,
        routed("/sessions"@, argument, false) == Route::Session,
        routed("/resume"@, argument, false) == Route::Session,
        routed("/help"@, argument, true) == Route::ToggleHelp,
        routed("/help"@, argument, false) == Route::Session,
{
    reveal_strlit("/commands");
    assert("/commands"@.len() == 9 && "/commands"@[1] == 'c' && "/commands"@[3] == 'm');
    reveal_strlit("/warnings");
    assert("/warnings"@.len() == 9 && "/warnings"@[1] == 'w');
    reveal_strlit("/warning");
    assert("/warning"@.len() == 8 && "/warning"@[1] == 'w');
    reveal_strlit("/expand");
    assert("/expand"@.len() == 7 && "/expand"@[1] == 'e');
    reveal_strlit("/collapse");
    assert("/collapse"@.len() == 9 && "/collapse"@[1] == 'c' && "/collapse"@[3] == 'l');
    reveal_strlit("/skills");
    assert("/skills"@.len() == 7 && "/skills"@[1] == 's' && "/skills"@[2] == 'k');
    reveal_strlit("/theme");
    assert("/theme"@.len() == 6 && "/theme"@[1] == 't');
    reveal_strlit("/themes");
    assert("/themes"@.len() == 7 && "/themes"@[1] == 't');
    reveal_strlit("/model");
    assert("/model"@.len() == 6 && "/model"@[1] == 'm');
    reveal_strlit("/status");
    assert("/status"@.len() == 7 && "/status"@[1] == 's' && "/status"@[2] == 't');
    reveal_strlit("/mcp");
    assert("/mcp"@.len() == 4);
    reveal_strlit("/compact");
    assert("/compact"@.len() == 8 && "/compact"@[1] == 'c');
    reveal_strlit("/mode");
    assert("/mode"@.len() == 5 && "/mode"@[1] == 'm');
    reveal_strlit("/plan");
    assert("/plan"@.len() == 5 && "/plan"@[1] == 'p');
    reveal_strlit("/undo");
    assert("/undo"@.len() == 5 && "/undo"@[1] == 'u');
    reveal_strlit("/jobs");
    assert("/jobs"@.len() == 5 && "/jobs"@[1] == 'j');
    reveal_strlit("/index");
    assert("/index"@.len() == 6 && "/index"@[1] == 'i');
    reveal_strlit("/help");
    assert("/help"@.len() == 5 && "/help"@[1] == 'h');
    reveal_strlit("/sessions");
    assert("/sessions"@.len() == 9 && "/sessions"@[1] == 's');
    reveal_strlit("/resume");
    assert("/resume"@.len() == 7 && "/resume"@[1] == 'r');
    reveal_strlit("/models");
    assert("/models"@.len() == 7 && "/models"@[1] == 'm');
}

/// What follows a command on sessions is what it is about, as it was typed but for white space around
/// it: the id to resume or delete, the words to search for or to forget, and for a new name the id
/// first and then the whole title.
pub proof fn law_sessions_are_named_as_typed(words: Seq<char>, id: Seq<char>, title: Seq<char>)
    requires
        words.len() > 0,
        !text::is_white(words[0]),
        !text::is_white(words.last()),
        id.len() > 0,
        forall|i: int| 0 <= i < id.len() ==> !text::is_white(#[trigger] id[i]),
        title.len() > 0,
        !text::is_white(title[0]),
        !text::is_white(title.last()),
    ensures
        session_command("/resume"@, words) == Ok::<SessionCommand<Seq<char>>, Seq<char>>(
            SessionCommand::Resume { id: words },
        ),
        session_command("/delete"@, words) == Ok::<SessionCommand<Seq<char>>, Seq<char>>(
            SessionCommand::Delete { id: words },
        ),
        session_command("/search"@, words) == Ok::<SessionCommand<Seq<char>>, Seq<char>>(
            SessionCommand::Search { needle: words },
        ),
        words.len() != 3 ==> session_command("/forget"@, words) == Ok::<
            SessionCommand<Seq<char>>,
            Seq<char>,
        >(SessionCommand::Forget { matching: words }),
        session_command("/rename"@, id.push(' ') + title) == Ok::<
            SessionCommand<Seq<char>>,
            Seq<char>,
        >(SessionCommand::Rename { id, title }),
        session_command("/new"@, words) is Ok && session_command("/new"@, words)->Ok_0 is New,
        session_command("/stats"@, words) is Ok && session_command("/stats"@, words)->Ok_0 is Stats,
        session_command("/usage"@, words) is Ok && session_command("/usage"@, words)->Ok_0 is Usage,
        session_command("/memory"@, words) is Ok && session_command(
            "/memory"@,
            words,
        )->Ok_0 is Memory,
{
    reveal_strlit("/help");
    assert("/help"@.len() == 5);
    reveal_strlit("/new");
    assert("/new"@.len() == 4);
    reveal_strlit("/sessions");
    assert("/sessions"@.len() == 9);
    reveal_strlit("/resume");
    assert("/resume"@.len() == 7 && "/resume"@[1] == 'r' && "/resume"@[3] == 's');
    reveal_strlit("/delete");
    assert("/delete"@.len() == 7 && "/delete"@[1] == 'd');
    reveal_strlit("/rename");
    assert("/rename"@.len() == 7 && "/rename"@[1] == 'r' && "/rename"@[3] == 'n');
    reveal_strlit("/search");
    assert("/search"@.len() == 7 && "/search"@[1] == 's');
    reveal_strlit("/stats");
    assert("/stats"@.len() == 6 && "/stats"@[1] == 's');
    reveal_strlit("/usage");
    assert("/usage"@.len() == 6 && "/usage"@[1] == 'u');
    reveal_strlit("/memory");
    assert("/memory"@.len() == 7 && "/memory"@[1] == 'm');
    reveal_strlit("/forget");
    assert("/forget"@.len() == 7 && "/forget"@[1] == 'f');
    reveal_strlit("all");
    scan::lemma_trimmed_bare(words);
    assert(scan::lower(words).len() == words.len());
    assert(scan::lower("all"@).len() == 3);
    let both = id.push(' ') + title;
    assert(both[0] == id[0]);
    assert(both.last() == title.last());
    scan::lemma_trimmed_bare(both);
    lemma_first_white(both, id.len() as int);
    assert(both.take(id.len() as int) =~= id);
    assert(both.skip(id.len() as int + 1) =~= title);
    scan::lemma_trimmed_bare(title);
}

/// A command that nobody knows is named in the answer, and so is the one that it may have meant.
#[verifier::rlimit(50)]
pub proof fn law_unknown_commands_are_named(command: Seq<char>)
    ensures
        text::stands_in(unknown_words(command), "\""@ + command + "\""@),
        commands::nearest(command) matches Some(name) ==> text::stands_in(
            unknown_words(command),
            "/"@ + name,
        ),
{
    reveal_strlit("Unknown command \"");
    reveal_strlit("Unknown command ");
    reveal_strlit("\"");
    reveal_strlit("/");
    reveal_strlit("\". Did you mean /");
    reveal_strlit(". Did you mean ");
    reveal_strlit("\". Type /help for available commands.\n");
    reveal_strlit(". Type /help for available commands.\n");
    let quoted = "\""@ + command + "\""@;
    match commands::nearest(command) {
        Some(name) => {
            let rest = "? Type /help for the full list.\n"@;
            let near = "/"@ + name;
            assert(unknown_words(command) =~= "Unknown command "@ + quoted + ". Did you mean "@
                + near + rest);
            assert(text::stands_in(unknown_words(command), quoted)) by {
                broadcast use text::group_stands;

            }
            assert(text::stands_in(unknown_words(command), near)) by {
                broadcast use text::group_stands;

            }
        },
        None => {
            assert(unknown_words(command) =~= "Unknown command "@ + quoted
                + ". Type /help for available commands.\n"@);
            assert(text::stands_in(unknown_words(command), quoted)) by {
                broadcast use text::group_stands;

            }
        },
    }
}

} // verus!
