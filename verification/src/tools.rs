//! The tools that the model can call: what they are, which of them need the user's consent, and
//! everything about running them but the running itself.
use crate::context::ContextError;
use crate::json;
use crate::number;
use crate::number::count;
use crate::patch::PatchError;
use crate::path::PathError;
use crate::provider::{DefinitionModel, ToolCall, ToolDefinition};
use crate::scan;
use crate::scan::trim;
use crate::split;
use crate::split::{join, split_lines};
use crate::text;
use crate::text::{cat, cat3, holds, same};
use vstd::prelude::*;
use vstd::string::*;

verus! {

broadcast use crate::text::group_views;

/// The most bytes of a command's output that reach the model.
pub const MAX_COMMAND_OUTPUT: usize = 16384;

/// The most lines of a preview.
pub const MAX_PREVIEW_LINES: usize = 40;

pub const READ_FILE_TOOL: &'static str = "read_file";

pub const LIST_DIRECTORY_TOOL: &'static str = "list_directory";

pub const RUN_COMMAND_TOOL: &'static str = "run_command";

pub const PATCH_FILE_TOOL: &'static str = "patch_file";

pub const REMEMBER_TOOL: &'static str = "remember";

pub const UPDATE_MEMORY_TOOL: &'static str = "update_memory";

pub const FORGET_TOOL: &'static str = "forget";

pub const ASK_USER_TOOL: &'static str = "ask_user";

pub const SPAWN_AGENT_TOOL: &'static str = "spawn_agent";

pub const SEARCH_CODE_TOOL: &'static str = "search_code";

pub const UPDATE_PLAN_TOOL: &'static str = "update_plan";

// ---------------------------------------------------------------------------------------------
// Errors
// ---------------------------------------------------------------------------------------------

/// Why a tool failed. `T` is text: `String` in a value, `Seq<char>` in its model.
#[derive(Debug)]
pub enum ToolError<T> {
    /// The arguments are no JSON.
    NotJson { cause: T },
    /// An argument is missing or is no text.
    Missing { tool: T, key: T },
    /// An argument is blank.
    Empty { tool: T, key: T },
    Context(ContextError<T>),
    Path(PathError<T>),
    Patch(PatchError<T>),
    /// A new file would replace one that is there.
    Exists { path: T },
    /// What the caller could not do.
    Failed { cause: T },
}

impl View for ToolError<String> {
    type V = ToolError<Seq<char>>;

    open spec fn view(&self) -> ToolError<Seq<char>> {
        match self {
            ToolError::NotJson { cause } => ToolError::NotJson { cause: cause@ },
            ToolError::Missing { tool, key } => ToolError::Missing { tool: tool@, key: key@ },
            ToolError::Empty { tool, key } => ToolError::Empty { tool: tool@, key: key@ },
            ToolError::Context(e) => ToolError::Context(e@),
            ToolError::Path(e) => ToolError::Path(e@),
            ToolError::Patch(e) => ToolError::Patch(e@),
            ToolError::Exists { path } => ToolError::Exists { path: path@ },
            ToolError::Failed { cause } => ToolError::Failed { cause: cause@ },
        }
    }
}

impl ToolError<Seq<char>> {
    /// What the model reads.
    pub open spec fn words(self) -> Seq<char> {
        match self {
            ToolError::NotJson { cause } => "tool arguments were not valid JSON: "@ + cause,
            ToolError::Missing { tool, key } => tool + " requires a '"@ + key
                + "' string argument"@,
            ToolError::Empty { tool, key } => tool + " requires a non-empty '"@ + key
                + "' argument"@,
            ToolError::Context(e) => e.words(),
            ToolError::Path(e) => e.words(),
            ToolError::Patch(e) => e.words(),
            ToolError::Exists { path } => path
                + " already exists; provide old_text to modify it"@,
            ToolError::Failed { cause } => cause,
        }
    }
}

impl ToolError<String> {
    /// What the model reads.
    pub fn message(&self) -> (r: String)
        ensures
            r@ == self@.words(),
    {
        match self {
            ToolError::NotJson { cause } => cat(
                "tool arguments were not valid JSON: ",
                cause.as_str(),
            ),
            ToolError::Missing { tool, key } => {
                let mut out = cat3(tool.as_str(), " requires a '", key.as_str());
                out.append("' string argument");
                out
            },
            ToolError::Empty { tool, key } => {
                let mut out = cat3(tool.as_str(), " requires a non-empty '", key.as_str());
                out.append("' argument");
                out
            },
            ToolError::Context(e) => e.message(),
            ToolError::Path(e) => e.message(),
            ToolError::Patch(e) => e.message(),
            ToolError::Exists { path } => cat(
                path.as_str(),
                " already exists; provide old_text to modify it",
            ),
            ToolError::Failed { cause } => cause.clone(),
        }
    }
}

/// What the model is told of a call that was run: its output, or its error marked as one.
pub open spec fn report(r: Result<Seq<char>, ToolError<Seq<char>>>) -> Seq<char> {
    match r {
        Ok(output) => output,
        Err(e) => "Error: "@ + e.words(),
    }
}

/// What the model is told of a call that was run.
pub fn report_outcome(outcome: Result<String, ToolError<String>>) -> (r: String)
    ensures
        r@ == report(
            match outcome {
                Ok(output) => Ok(output@),
                Err(e) => Err(e@),
            },
        ),
{
    match outcome {
        Ok(output) => output,
        Err(e) => {
            let words = e.message();
            cat("Error: ", words.as_str())
        },
    }
}

// ---------------------------------------------------------------------------------------------
// Arguments
// ---------------------------------------------------------------------------------------------

/// A text argument of a call, from the value that its JSON is.
pub open spec fn argument_in(tool: Seq<char>, key: Seq<char>, found: Option<Seq<char>>) -> Result<
    Seq<char>,
    ToolError<Seq<char>>,
> {
    match found {
        Some(text) => Ok(text),
        None => Err(ToolError::Missing { tool, key }),
    }
}

/// A text argument of a call, from what its JSON holds under the key.
pub fn require_text(tool: &str, key: &str, found: Option<String>) -> (r: Result<
    String,
    ToolError<String>,
>)
    ensures
        match r {
            Ok(text) => argument_in(tool@, key@, text::opt_view(found)) == Ok::<
                Seq<char>,
                ToolError<Seq<char>>,
            >(text@),
            Err(e) => argument_in(tool@, key@, text::opt_view(found)) == Err::<
                Seq<char>,
                ToolError<Seq<char>>,
            >(e@),
        },
{
    match found {
        Some(text) => Ok(text),
        None => Err(ToolError::Missing { tool: tool.to_owned(), key: key.to_owned() }),
    }
}

/// A text argument of a call.
pub open spec fn argument(tool: Seq<char>, arguments: Seq<char>, key: Seq<char>) -> Result<
    Seq<char>,
    ToolError<Seq<char>>,
> {
    match json::parsed(arguments) {
        Err(cause) => Err(ToolError::NotJson { cause }),
        Ok(value) => argument_in(tool, key, json::text_under(value, key)),
    }
}

/// The one text argument that a tool takes.
pub fn text_argument(tool: &str, arguments: &str, key: &str) -> (r: Result<
    String,
    ToolError<String>,
>)
    ensures
        match r {
            Ok(text) => argument(tool@, arguments@, key@) == Ok::<Seq<char>, ToolError<Seq<char>>>(
                text@,
            ),
            Err(e) => argument(tool@, arguments@, key@) == Err::<Seq<char>, ToolError<Seq<char>>>(
                e@,
            ),
        },
{
    match json::parse(arguments) {
        Err(cause) => Err(ToolError::NotJson { cause }),
        Ok(value) => require_text(tool, key, json::get_text(&value, key)),
    }
}

/// The arguments of a call as a JSON value, which is what a server is sent.
pub fn call_arguments(arguments: &str) -> (r: Result<serde_json::Value, ToolError<String>>)
    ensures
        match r {
            Ok(value) => json::parsed(arguments@) == Ok::<serde_json::Value, Seq<char>>(value),
            Err(e) => json::parsed(arguments@) is Err && e@ == (ToolError::NotJson {
                cause: json::parsed(arguments@)->Err_0,
            }),
        },
{
    match json::parse(arguments) {
        Ok(value) => Ok(value),
        Err(cause) => Err(ToolError::NotJson { cause }),
    }
}

/// What a patch is to do.
#[derive(Debug)]
pub struct PatchArguments {
    pub path: String,
    pub old_text: String,
    pub new_text: String,
}

/// What [`PatchArguments`] stand for.
#[verifier::ext_equal]
pub struct PatchModel {
    pub path: Seq<char>,
    pub old_text: Seq<char>,
    pub new_text: Seq<char>,
}

impl View for PatchArguments {
    type V = PatchModel;

    open spec fn view(&self) -> PatchModel {
        PatchModel { path: self.path@, old_text: self.old_text@, new_text: self.new_text@ }
    }
}

/// What a patch is to do, from what the JSON of its arguments holds. Without old text the patch
/// creates a file.
pub open spec fn patch_in(
    path: Option<Seq<char>>,
    new_text: Option<Seq<char>>,
    old_text: Option<Seq<char>>,
) -> Result<PatchModel, ToolError<Seq<char>>> {
    match argument_in(PATCH_FILE_TOOL@, "path"@, path) {
        Err(e) => Err(e),
        Ok(path) => match argument_in(PATCH_FILE_TOOL@, "new_text"@, new_text) {
            Err(e) => Err(e),
            Ok(new_text) => Ok(
                PatchModel {
                    path,
                    old_text: match old_text {
                        Some(text) => text,
                        None => seq![],
                    },
                    new_text,
                },
            ),
        },
    }
}

/// What a patch is to do, from what the JSON of its arguments holds.
pub fn require_patch(path: Option<String>, new_text: Option<String>, old_text: Option<String>) -> (r:
    Result<PatchArguments, ToolError<String>>)
    ensures
        match r {
            Ok(patch) => patch_in(
                text::opt_view(path),
                text::opt_view(new_text),
                text::opt_view(old_text),
            ) == Ok::<PatchModel, ToolError<Seq<char>>>(patch@),
            Err(e) => patch_in(
                text::opt_view(path),
                text::opt_view(new_text),
                text::opt_view(old_text),
            ) == Err::<PatchModel, ToolError<Seq<char>>>(e@),
        },
{
    let path = match require_text(PATCH_FILE_TOOL, "path", path) {
        Ok(path) => path,
        Err(e) => {
            return Err(e);
        },
    };
    let new_text = match require_text(PATCH_FILE_TOOL, "new_text", new_text) {
        Ok(text) => text,
        Err(e) => {
            return Err(e);
        },
    };
    let old_text = match old_text {
        Some(text) => text,
        None => String::new(),
    };
    let patch = PatchArguments { path, old_text, new_text };
    assert(old_text@ =~= patch@.old_text);
    Ok(patch)
}

/// What a patch is to do.
pub open spec fn patch_of(arguments: Seq<char>) -> Result<PatchModel, ToolError<Seq<char>>> {
    match json::parsed(arguments) {
        Err(cause) => Err(ToolError::NotJson { cause }),
        Ok(value) => patch_in(
            json::text_under(value, "path"@),
            json::text_under(value, "new_text"@),
            json::text_under(value, "old_text"@),
        ),
    }
}

/// What a patch is to do.
pub fn parse_patch_arguments(arguments: &str) -> (r: Result<PatchArguments, ToolError<String>>)
    ensures
        match r {
            Ok(patch) => patch_of(arguments@) == Ok::<PatchModel, ToolError<Seq<char>>>(patch@),
            Err(e) => patch_of(arguments@) == Err::<PatchModel, ToolError<Seq<char>>>(e@),
        },
{
    match json::parse(arguments) {
        Err(cause) => Err(ToolError::NotJson { cause }),
        Ok(value) => require_patch(
            json::get_text(&value, "path"),
            json::get_text(&value, "new_text"),
            json::get_text(&value, "old_text"),
        ),
    }
}

// ---------------------------------------------------------------------------------------------
// Previews
// ---------------------------------------------------------------------------------------------

/// The lines, each behind a mark.
pub open spec fn marked(mark: Seq<char>, lines: Seq<Seq<char>>) -> Seq<Seq<char>> {
    lines.map_values(|line: Seq<char>| mark + line)
}

/// All lines of a patch: the file, what goes and what comes.
pub open spec fn patch_lines(patch: PatchModel) -> Seq<Seq<char>> {
    seq!["    --- "@ + patch.path] + marked("    - "@, split::lines(patch.old_text)) + marked(
        "    + "@,
        split::lines(patch.new_text),
    )
}

/// The lines of a preview: all of them, or the first few and how many more there are.
pub open spec fn preview_lines(lines: Seq<Seq<char>>) -> Seq<Seq<char>> {
    if lines.len() > MAX_PREVIEW_LINES {
        lines.take(MAX_PREVIEW_LINES as int).push(
            "    … ("@ + number::decimal((lines.len() - MAX_PREVIEW_LINES) as nat)
                + " more lines)"@,
        )
    } else {
        lines
    }
}

/// What the user sees of a patch before it is applied.
pub open spec fn patch_preview(patch: PatchModel) -> Seq<char> {
    split::joined(preview_lines(patch_lines(patch)), "\n"@)
}

fn push_marked(out: &mut Vec<String>, mark: &str, body: &str)
    ensures
        text::views(final(out)@) == text::views(old(out)@) + marked(mark@, split::lines(body@)),
{
    let lines = split_lines(body);
    let ghost all = split::lines(body@);
    let ghost start = text::views(out@);
    let mut i: usize = 0;
    while i < lines.len()
        invariant
            i <= lines.len(),
            text::views(lines@) == all,
            text::views(out@) =~= start + marked(mark@, all).take(i as int),
        decreases lines.len() - i,
    {
        out.push(cat(mark, lines[i].as_str()));
        i += 1;
    }
    assert(marked(mark@, all).take(i as int) =~= marked(mark@, all));
}

/// What the user sees of a patch before it is applied.
pub fn preview_patch(patch: &PatchArguments) -> (r: String)
    ensures
        r@ == patch_preview(patch@),
{
    let mut lines: Vec<String> = Vec::new();
    lines.push(cat("    --- ", patch.path.as_str()));
    assert(text::views(lines@) =~= seq!["    --- "@ + patch.path@]);
    push_marked(&mut lines, "    - ", patch.old_text.as_str());
    push_marked(&mut lines, "    + ", patch.new_text.as_str());
    let ghost all = patch_lines(patch@);
    assert(text::views(lines@) =~= all);
    if lines.len() > MAX_PREVIEW_LINES {
        let hidden: usize = lines.len() - MAX_PREVIEW_LINES;
        lines.truncate(MAX_PREVIEW_LINES);
        let digits = count(hidden);
        lines.push(cat3("    … (", digits.as_str(), " more lines)"));
        assert(text::views(lines@) =~= preview_lines(all));
    }
    join(&lines, "\n")
}

// ---------------------------------------------------------------------------------------------
// Tools
// ---------------------------------------------------------------------------------------------

/// Something that the model can call by name. What only reads runs at once; what has side effects
/// asks the user first.
pub trait Tool {
    /// The name.
    spec fn name_spec(&self) -> Seq<char>;

    /// What the model is offered.
    spec fn definition_spec(&self) -> DefinitionModel;

    /// The user is asked first.
    spec fn confirmed_spec(&self) -> bool;

    /// What the user sees of a call before consenting.
    spec fn preview_spec(&self, arguments: Seq<char>) -> Option<Seq<char>>;

    fn name(&self) -> (r: &str)
        ensures
            r@ == self.name_spec(),
    ;

    fn definition(&self) -> (r: ToolDefinition)
        ensures
            r@ == self.definition_spec(),
    ;

    fn requires_confirmation(&self) -> (r: bool)
        ensures
            r == self.confirmed_spec(),
    ;

    fn preview(&self, arguments: &str) -> (r: Option<String>)
        ensures
            text::opt_view(r) == self.preview_spec(arguments@),
    ;
}

pub const READ_FILE_ABOUT: &'static str = "Read a UTF-8 text file from the project. The path must be relative to the project root, for example src/main.rs.";

pub const READ_FILE_SCHEMA: &'static str = "{\"properties\":{\"path\":{\"description\":\"Project-relative path to the file to read.\",\"type\":\"string\"}},\"required\":[\"path\"],\"type\":\"object\"}";

pub const LIST_DIRECTORY_ABOUT: &'static str = "List the entries of a directory in the project. The path must be relative to the project root; use \".\" for the root. Directories are shown with a trailing slash.";

pub const LIST_DIRECTORY_SCHEMA: &'static str = "{\"properties\":{\"path\":{\"description\":\"Project-relative directory path, e.g. src or \\\".\\\" for the root.\",\"type\":\"string\"}},\"required\":[\"path\"],\"type\":\"object\"}";

pub const RUN_COMMAND_ABOUT: &'static str = "Run a shell command in the project directory and return its exit code and output. The user must approve each command before it runs. Use it for builds, tests, and searches.";

pub const RUN_COMMAND_SCHEMA: &'static str = "{\"properties\":{\"command\":{\"description\":\"The shell command to run, e.g. cargo test.\",\"type\":\"string\"}},\"required\":[\"command\"],\"type\":\"object\"}";

pub const PATCH_FILE_ABOUT: &'static str = "Modify one project file by replacing old_text (which must match the file exactly once) with new_text. To create a new file, pass an empty old_text and the full content as new_text. The user must approve each patch. Read the file first so old_text matches exactly.";

pub const PATCH_FILE_SCHEMA: &'static str = "{\"properties\":{\"new_text\":{\"description\":\"Replacement text, or the full content of a new file.\",\"type\":\"string\"},\"old_text\":{\"description\":\"Exact text to replace. Must appear exactly once. Empty to create a new file.\",\"type\":\"string\"},\"path\":{\"description\":\"Project-relative path of the file to modify or create.\",\"type\":\"string\"}},\"required\":[\"path\",\"old_text\",\"new_text\"],\"type\":\"object\"}";

/// A tool of the program itself.
#[derive(Clone, Copy, Debug, PartialEq, Eq, Structural)]
pub enum Builtin {
    ReadFile,
    ListDirectory,
    RunCommand,
    PatchFile,
}

impl Tool for Builtin {
    open spec fn name_spec(&self) -> Seq<char> {
        match self {
            Builtin::ReadFile => READ_FILE_TOOL@,
            Builtin::ListDirectory => LIST_DIRECTORY_TOOL@,
            Builtin::RunCommand => RUN_COMMAND_TOOL@,
            Builtin::PatchFile => PATCH_FILE_TOOL@,
        }
    }

    open spec fn definition_spec(&self) -> DefinitionModel {
        DefinitionModel {
            name: self.name_spec(),
            description: match self {
                Builtin::ReadFile => READ_FILE_ABOUT@,
                Builtin::ListDirectory => LIST_DIRECTORY_ABOUT@,
                Builtin::RunCommand => RUN_COMMAND_ABOUT@,
                Builtin::PatchFile => PATCH_FILE_ABOUT@,
            },
            parameters: match self {
                Builtin::ReadFile => READ_FILE_SCHEMA@,
                Builtin::ListDirectory => LIST_DIRECTORY_SCHEMA@,
                Builtin::RunCommand => RUN_COMMAND_SCHEMA@,
                Builtin::PatchFile => PATCH_FILE_SCHEMA@,
            },
        }
    }

    open spec fn confirmed_spec(&self) -> bool {
        self is RunCommand || self is PatchFile
    }

    open spec fn preview_spec(&self, arguments: Seq<char>) -> Option<Seq<char>> {
        match self {
            Builtin::PatchFile => match patch_of(arguments) {
                Ok(patch) => Some(patch_preview(patch)),
                Err(_) => None,
            },
            _ => None,
        }
    }

    fn name(&self) -> (r: &str) {
        match self {
            Builtin::ReadFile => READ_FILE_TOOL,
            Builtin::ListDirectory => LIST_DIRECTORY_TOOL,
            Builtin::RunCommand => RUN_COMMAND_TOOL,
            Builtin::PatchFile => PATCH_FILE_TOOL,
        }
    }

    fn definition(&self) -> (r: ToolDefinition) {
        let (about, schema): (&str, &str) = match self {
            Builtin::ReadFile => (READ_FILE_ABOUT, READ_FILE_SCHEMA),
            Builtin::ListDirectory => (LIST_DIRECTORY_ABOUT, LIST_DIRECTORY_SCHEMA),
            Builtin::RunCommand => (RUN_COMMAND_ABOUT, RUN_COMMAND_SCHEMA),
            Builtin::PatchFile => (PATCH_FILE_ABOUT, PATCH_FILE_SCHEMA),
        };
        ToolDefinition {
            name: self.name().to_owned(),
            description: about.to_owned(),
            parameters: schema.to_owned(),
        }
    }

    fn requires_confirmation(&self) -> (r: bool) {
        match self {
            Builtin::RunCommand | Builtin::PatchFile => true,
            _ => false,
        }
    }

    fn preview(&self, arguments: &str) -> (r: Option<String>) {
        match self {
            Builtin::PatchFile => match parse_patch_arguments(arguments) {
                Ok(patch) => Some(preview_patch(&patch)),
                Err(_) => None,
            },
            _ => None,
        }
    }
}

/// A tool of a connected MCP server.
#[derive(Debug)]
pub struct McpTool {
    /// The server's name and the tool's name, see [`crate::mcp::qualified_name`].
    pub qualified_name: String,
    /// The name by which the server knows the tool.
    pub remote_name: String,
    pub description: String,
    /// The JSON schema of the arguments, as text.
    pub schema: String,
    pub trusted: bool,
}

impl Tool for McpTool {
    open spec fn name_spec(&self) -> Seq<char> {
        self.qualified_name@
    }

    open spec fn definition_spec(&self) -> DefinitionModel {
        DefinitionModel {
            name: self.qualified_name@,
            description: self.description@,
            parameters: self.schema@,
        }
    }

    open spec fn confirmed_spec(&self) -> bool {
        !self.trusted
    }

    open spec fn preview_spec(&self, arguments: Seq<char>) -> Option<Seq<char>> {
        Some("    (mcp) "@ + self.remote_name@ + " "@ + scan::trimmed(arguments))
    }

    fn name(&self) -> (r: &str) {
        self.qualified_name.as_str()
    }

    fn definition(&self) -> (r: ToolDefinition) {
        ToolDefinition {
            name: self.qualified_name.clone(),
            description: self.description.clone(),
            parameters: self.schema.clone(),
        }
    }

    /// A third party's server can do anything, so its tools ask first unless it is trusted.
    fn requires_confirmation(&self) -> (r: bool) {
        !self.trusted
    }

    fn preview(&self, arguments: &str) -> (r: Option<String>) {
        let inner = trim(arguments);
        let mut out = cat3("    (mcp) ", self.remote_name.as_str(), " ");
        out.append(inner.as_str());
        Some(out)
    }
}

/// Any tool.
#[derive(Debug)]
pub enum AnyTool {
    Builtin(Builtin),
    Mcp(McpTool),
}

impl Tool for AnyTool {
    open spec fn name_spec(&self) -> Seq<char> {
        match self {
            AnyTool::Builtin(tool) => tool.name_spec(),
            AnyTool::Mcp(tool) => tool.name_spec(),
        }
    }

    open spec fn definition_spec(&self) -> DefinitionModel {
        match self {
            AnyTool::Builtin(tool) => tool.definition_spec(),
            AnyTool::Mcp(tool) => tool.definition_spec(),
        }
    }

    open spec fn confirmed_spec(&self) -> bool {
        match self {
            AnyTool::Builtin(tool) => tool.confirmed_spec(),
            AnyTool::Mcp(tool) => tool.confirmed_spec(),
        }
    }

    open spec fn preview_spec(&self, arguments: Seq<char>) -> Option<Seq<char>> {
        match self {
            AnyTool::Builtin(tool) => tool.preview_spec(arguments),
            AnyTool::Mcp(tool) => tool.preview_spec(arguments),
        }
    }

    fn name(&self) -> (r: &str) {
        match self {
            AnyTool::Builtin(tool) => tool.name(),
            AnyTool::Mcp(tool) => tool.name(),
        }
    }

    fn definition(&self) -> (r: ToolDefinition) {
        match self {
            AnyTool::Builtin(tool) => tool.definition(),
            AnyTool::Mcp(tool) => tool.definition(),
        }
    }

    fn requires_confirmation(&self) -> (r: bool) {
        match self {
            AnyTool::Builtin(tool) => tool.requires_confirmation(),
            AnyTool::Mcp(tool) => tool.requires_confirmation(),
        }
    }

    fn preview(&self, arguments: &str) -> (r: Option<String>) {
        match self {
            AnyTool::Builtin(tool) => tool.preview(arguments),
            AnyTool::Mcp(tool) => tool.preview(arguments),
        }
    }
}

// ---------------------------------------------------------------------------------------------
// The registry
// ---------------------------------------------------------------------------------------------

/// The tools that the model is offered.
#[derive(Debug)]
pub struct ToolRegistry {
    pub tools: Vec<AnyTool>,
}

/// The place of the first tool with a name, or the number of tools.
pub open spec fn place_of(tools: Seq<AnyTool>, name: Seq<char>) -> nat
    decreases tools.len(),
{
    if tools.len() == 0 || tools[0].name_spec() == name {
        0
    } else {
        1 + place_of(tools.skip(1), name)
    }
}

/// The first tool with a name.
pub open spec fn tool_named(tools: Seq<AnyTool>, name: Seq<char>) -> Option<AnyTool> {
    if place_of(tools, name) < tools.len() {
        Some(tools[place_of(tools, name) as int])
    } else {
        None
    }
}

/// The tools of the program itself, in the order in which they are offered.
pub open spec fn builtin_tools() -> Seq<AnyTool> {
    seq![
        AnyTool::Builtin(Builtin::ReadFile),
        AnyTool::Builtin(Builtin::ListDirectory),
        AnyTool::Builtin(Builtin::RunCommand),
        AnyTool::Builtin(Builtin::PatchFile),
    ]
}

/// The tools that only look, in the order in which they are offered.
pub open spec fn looking_tools() -> Seq<AnyTool> {
    seq![AnyTool::Builtin(Builtin::ReadFile), AnyTool::Builtin(Builtin::ListDirectory)]
}

/// Whether the configuration lists a command, word for word: then it runs without being asked
/// about.
pub fn is_preapproved(command: &str, allowed: &[String]) -> (r: bool)
    ensures
        r == text::views(allowed@).contains(scan::trimmed(command@)),
{
    let inner = trim(command);
    holds(allowed, inner.as_str())
}

/// A call is one of a command that the configuration lists.
pub open spec fn preapproved(name: Seq<char>, arguments: Seq<char>, allowed: Seq<Seq<char>>) -> bool {
    &&& name == RUN_COMMAND_TOOL@
    &&& argument(RUN_COMMAND_TOOL@, arguments, "command"@) matches Ok(command)
    &&& allowed.contains(scan::trimmed(command))
}

/// The user is asked before a call runs.
pub open spec fn asks(
    tools: Seq<AnyTool>,
    name: Seq<char>,
    arguments: Seq<char>,
    allowed: Seq<Seq<char>>,
) -> bool {
    &&& !preapproved(name, arguments, allowed)
    &&& tool_named(tools, name) matches Some(tool)
    &&& tool.confirmed_spec()
}

impl ToolRegistry {
    /// The tools that only look.
    pub fn read_only() -> (r: ToolRegistry)
        ensures
            r.tools@ == looking_tools(),
    {
        let mut tools: Vec<AnyTool> = Vec::new();
        tools.push(AnyTool::Builtin(Builtin::ReadFile));
        tools.push(AnyTool::Builtin(Builtin::ListDirectory));
        assert(tools@ =~= looking_tools());
        ToolRegistry { tools }
    }

    /// The tools of the program itself, and then the given ones.
    pub fn with_defaults(extra: Vec<McpTool>) -> (r: ToolRegistry)
        ensures
            r.tools@ == builtin_tools() + Seq::new(
                extra@.len(),
                |i: int| AnyTool::Mcp(extra@[i]),
            ),
    {
        let mut tools: Vec<AnyTool> = Vec::new();
        tools.push(AnyTool::Builtin(Builtin::ReadFile));
        tools.push(AnyTool::Builtin(Builtin::ListDirectory));
        tools.push(AnyTool::Builtin(Builtin::RunCommand));
        tools.push(AnyTool::Builtin(Builtin::PatchFile));
        let ghost all = extra@;
        let ghost mut done: int = 0;
        let mut rest = extra;
        assert(tools@ =~= builtin_tools());
        while rest.len() > 0
            invariant
                0 <= done <= all.len(),
                rest@ == all.skip(done),
                tools@ =~= builtin_tools() + Seq::new(
                    done as nat,
                    |i: int| AnyTool::Mcp(all[i]),
                ),
            decreases rest.len(),
        {
            let tool = rest.remove(0);
            assert(tool == all[done]);
            tools.push(AnyTool::Mcp(tool));
            proof {
                assert(all.skip(done).remove(0) =~= all.skip(done + 1));
                done = done + 1;
            }
        }
        ToolRegistry { tools }
    }

    /// The first tool with a name.
    pub fn find(&self, name: &str) -> (r: Option<&AnyTool>)
        ensures
            match r {
                Some(tool) => tool_named(self.tools@, name@) == Some(*tool),
                None => tool_named(self.tools@, name@) is None,
            },
    {
        let mut i: usize = 0;
        assert(self.tools@.skip(0) =~= self.tools@);
        while i < self.tools.len()
            invariant
                i <= self.tools.len(),
                place_of(self.tools@, name@) == i + place_of(self.tools@.skip(i as int), name@),
            decreases self.tools.len() - i,
        {
            if same(self.tools[i].name(), name) {
                return Some(&self.tools[i]);
            }
            assert(self.tools@.skip(i as int).skip(1) =~= self.tools@.skip(i + 1));
            i += 1;
        }
        None
    }

    /// What the user sees of a call before consenting.
    pub fn preview(&self, call: &ToolCall) -> (r: Option<String>)
        ensures
            text::opt_view(r) == match tool_named(self.tools@, call@.name) {
                Some(tool) => tool.preview_spec(call@.arguments),
                None => None,
            },
    {
        match self.find(call.name.as_str()) {
            Some(tool) => tool.preview(call.arguments.as_str()),
            None => None,
        }
    }

    /// What the model is offered.
    pub fn definitions(&self) -> (r: Vec<ToolDefinition>)
        ensures
            text::views(r@) == self.tools@.map_values(|tool: AnyTool| tool.definition_spec()),
    {
        let mut out: Vec<ToolDefinition> = Vec::new();
        let ghost all = self.tools@.map_values(|tool: AnyTool| tool.definition_spec());
        let mut i: usize = 0;
        while i < self.tools.len()
            invariant
                i <= self.tools.len(),
                all == self.tools@.map_values(|tool: AnyTool| tool.definition_spec()),
                text::views(out@) =~= all.take(i as int),
            decreases self.tools.len() - i,
        {
            out.push(self.tools[i].definition());
            i += 1;
        }
        assert(all.take(i as int) =~= all);
        out
    }

    /// Whether the user is asked before a tool runs. Nothing is asked for an unknown name, which
    /// cannot run anyway.
    pub fn requires_confirmation(&self, name: &str) -> (r: bool)
        ensures
            r == (tool_named(self.tools@, name@) matches Some(tool) && tool.confirmed_spec()),
    {
        match self.find(name) {
            Some(tool) => tool.requires_confirmation(),
            None => false,
        }
    }

    /// Whether the user is asked before a call runs: not where the configuration lists its command.
    pub fn requires_confirmation_for(&self, call: &ToolCall, allowed: &[String]) -> (r: bool)
        ensures
            r == asks(self.tools@, call@.name, call@.arguments, text::views(allowed@)),
    {
        if same(call.name.as_str(), RUN_COMMAND_TOOL) {
            if let Ok(command) = text_argument(
                RUN_COMMAND_TOOL,
                call.arguments.as_str(),
                "command",
            ) {
                if is_preapproved(command.as_str(), allowed) {
                    return false;
                }
            }
        }
        self.requires_confirmation(call.name.as_str())
    }

    /// What the model is told of a call: what came of running the tool, or that there is none.
    pub fn dispatch(&self, call: &ToolCall, outcome: Result<String, ToolError<String>>) -> (r: String)
        ensures
            r@ == match tool_named(self.tools@, call@.name) {
                Some(_) => report(
                    match outcome {
                        Ok(output) => Ok(output@),
                        Err(e) => Err(e@),
                    },
                ),
                None => "Error: unknown tool '"@ + call@.name + "'"@,
            },
    {
        match self.find(call.name.as_str()) {
            Some(_) => report_outcome(outcome),
            None => cat3("Error: unknown tool '", call.name.as_str(), "'"),
        }
    }
}

/// The program's own tools that change something ask first, and those that only read do not,
/// whatever tools servers bring along.
pub proof fn law_builtins_ask_before_changing(extra: Seq<AnyTool>)
    ensures
        tool_named(builtin_tools() + extra, RUN_COMMAND_TOOL@) == Some(
            AnyTool::Builtin(Builtin::RunCommand),
        ),
        tool_named(builtin_tools() + extra, PATCH_FILE_TOOL@) == Some(
            AnyTool::Builtin(Builtin::PatchFile),
        ),
        tool_named(builtin_tools() + extra, READ_FILE_TOOL@) == Some(
            AnyTool::Builtin(Builtin::ReadFile),
        ),
        tool_named(builtin_tools() + extra, LIST_DIRECTORY_TOOL@) == Some(
            AnyTool::Builtin(Builtin::ListDirectory),
        ),
        AnyTool::Builtin(Builtin::RunCommand).confirmed_spec(),
        AnyTool::Builtin(Builtin::PatchFile).confirmed_spec(),
        !AnyTool::Builtin(Builtin::ReadFile).confirmed_spec(),
        !AnyTool::Builtin(Builtin::ListDirectory).confirmed_spec(),
{
    reveal_strlit("run_command");
    reveal_strlit("patch_file");
    reveal_strlit("read_file");
    reveal_strlit("list_directory");
    reveal_with_fuel(place_of, 5);
    let all = builtin_tools() + extra;
    assert(READ_FILE_TOOL@.len() == 9);
    assert(PATCH_FILE_TOOL@.len() == 10);
    assert(RUN_COMMAND_TOOL@.len() == 11);
    assert(LIST_DIRECTORY_TOOL@.len() == 14);
    assert(all[0] == AnyTool::Builtin(Builtin::ReadFile));
    assert(all.skip(1)[0] == AnyTool::Builtin(Builtin::ListDirectory));
    assert(all.skip(1).skip(1)[0] == AnyTool::Builtin(Builtin::RunCommand));
    assert(all.skip(1).skip(1).skip(1)[0] == AnyTool::Builtin(Builtin::PatchFile));
    assert(all[1] == AnyTool::Builtin(Builtin::ListDirectory));
    assert(all[2] == AnyTool::Builtin(Builtin::RunCommand));
    assert(all[3] == AnyTool::Builtin(Builtin::PatchFile));
}

/// A command runs unasked only where the configuration lists exactly that command, whatever tools
/// servers bring along; a patch never does.
pub proof fn law_only_listed_commands_run_unasked(
    extra: Seq<AnyTool>,
    arguments: Seq<char>,
    allowed: Seq<Seq<char>>,
)
    ensures
        asks(builtin_tools() + extra, PATCH_FILE_TOOL@, arguments, allowed),
        !asks(builtin_tools() + extra, RUN_COMMAND_TOOL@, arguments, allowed) <==> (argument(
            RUN_COMMAND_TOOL@,
            arguments,
            "command"@,
        ) matches Ok(command) && allowed.contains(scan::trimmed(command))),
{
    law_builtins_ask_before_changing(extra);
    reveal_strlit("run_command");
    reveal_strlit("patch_file");
    assert(PATCH_FILE_TOOL@.len() == 10);
    assert(RUN_COMMAND_TOOL@.len() == 11);
}

/// Whatever name a sub-agent calls, no tool that it has asks the user, and none changes anything.
pub proof fn law_looking_needs_no_consent(
    name: Seq<char>,
    arguments: Seq<char>,
    allowed: Seq<Seq<char>>,
)
    ensures
        !asks(looking_tools(), name, arguments, allowed),
        tool_named(looking_tools(), name) matches Some(tool) ==> tool == AnyTool::Builtin(
            Builtin::ReadFile,
        ) || tool == AnyTool::Builtin(Builtin::ListDirectory),
        tool_named(looking_tools(), RUN_COMMAND_TOOL@) is None,
        tool_named(looking_tools(), PATCH_FILE_TOOL@) is None,
{
    reveal_strlit("run_command");
    reveal_strlit("patch_file");
    reveal_strlit("read_file");
    reveal_strlit("list_directory");
    assert(READ_FILE_TOOL@.len() == 9);
    assert(PATCH_FILE_TOOL@.len() == 10);
    assert(RUN_COMMAND_TOOL@.len() == 11);
    assert(LIST_DIRECTORY_TOOL@.len() == 14);
    reveal_with_fuel(place_of, 3);
    let all = looking_tools();
    assert(all.skip(1)[0] == AnyTool::Builtin(Builtin::ListDirectory));
    assert(all.skip(1).skip(1).len() == 0);
}

// ---------------------------------------------------------------------------------------------
// What a call carries
// ---------------------------------------------------------------------------------------------

/// Arguments are taken as they were given, and none but a missing one is refused: a patch keeps its
/// path, its old and its new text to the letter.
pub proof fn law_arguments_are_taken_as_given(
    tool: Seq<char>,
    key: Seq<char>,
    given: Seq<char>,
    path: Seq<char>,
    new_text: Seq<char>,
    old_text: Seq<char>,
)
    ensures
        argument_in(tool, key, Some(given)) == Ok::<Seq<char>, ToolError<Seq<char>>>(given),
        argument_in(tool, key, None) is Err,
        patch_in(Some(path), Some(new_text), Some(old_text)) == Ok::<
            PatchModel,
            ToolError<Seq<char>>,
        >(PatchModel { path, old_text, new_text }),
        patch_in(Some(path), Some(new_text), None) matches Ok(patch) && patch.path == path
            && patch.new_text == new_text && patch.old_text.len() == 0,
        patch_in(None, Some(new_text), Some(old_text)) is Err,
        patch_in(Some(path), None, Some(old_text)) is Err,
{
}

/// What came of a call is reported whole: an output as it is, an error behind a mark that tells it
/// from an output.
pub proof fn law_outcomes_are_reported_whole(output: Seq<char>, error: ToolError<Seq<char>>)
    ensures
        report(Ok(output)) == output,
        "Error: "@.is_prefix_of(report(Err(error))),
        error.words().is_suffix_of(report(Err(error))),
        report(Err(error)).len() == "Error: "@.len() + error.words().len(),
{
    let told = report(Err(error));
    assert("Error: "@ =~= told.take("Error: "@.len() as int));
    assert(error.words() =~= told.skip(told.len() - error.words().len()));
}

/// A tool is found by its name: the first that has it, and none only where none has it.
pub proof fn law_tools_are_found_by_name(tools: Seq<AnyTool>, name: Seq<char>)
    ensures
        match tool_named(tools, name) {
            Some(tool) => exists|i: int|
                0 <= i < tools.len() && #[trigger] tools[i] == tool && tool.name_spec() == name && (
                forall|k: int| 0 <= k < i ==> (#[trigger] tools[k]).name_spec() != name),
            None => forall|i: int|
                0 <= i < tools.len() ==> (#[trigger] tools[i]).name_spec() != name,
        },
    decreases tools.len(),
{
    lemma_first_named(tools, name);
    let i = place_of(tools, name) as int;
    if i < tools.len() {
        assert(tools[i] == tool_named(tools, name)->0);
    }
}

proof fn lemma_first_named(tools: Seq<AnyTool>, name: Seq<char>)
    ensures
        place_of(tools, name) <= tools.len(),
        place_of(tools, name) < tools.len() ==> tools[place_of(tools, name) as int].name_spec()
            == name,
        forall|k: int|
            0 <= k < place_of(tools, name) ==> (#[trigger] tools[k]).name_spec() != name,
    decreases tools.len(),
{
    if tools.len() > 0 && tools[0].name_spec() != name {
        lemma_first_named(tools.skip(1), name);
        assert forall|k: int| 0 <= k < place_of(tools, name) implies (
        #[trigger] tools[k]).name_spec() != name by {
            if k > 0 {
                assert(tools.skip(1)[k - 1] == tools[k]);
            }
        }
    }
}

/// A patch that is short enough is shown whole before it is made: the path, every line that goes and
/// every line that comes, each with its mark. Of a longer one the first lines are shown, and how many
/// more there are.
#[verifier::rlimit(50)]
pub proof fn law_patches_are_shown_first(patch: PatchModel, i: int)
    ensures
        text::stands_in(patch_preview(patch), patch.path),
        patch_lines(patch).len() <= MAX_PREVIEW_LINES && 0 <= i < split::lines(patch.old_text).len()
            ==> text::stands_in(patch_preview(patch), "    - "@ + split::lines(patch.old_text)[i]),
        patch_lines(patch).len() <= MAX_PREVIEW_LINES && 0 <= i < split::lines(patch.new_text).len()
            ==> text::stands_in(patch_preview(patch), "    + "@ + split::lines(patch.new_text)[i]),
        patch_lines(patch).len() > MAX_PREVIEW_LINES ==> text::stands_in(
            patch_preview(patch),
            number::decimal((patch_lines(patch).len() - MAX_PREVIEW_LINES) as nat),
        ),
        patch_lines(patch).len() == 1 + split::lines(patch.old_text).len() + split::lines(
            patch.new_text,
        ).len(),
{
    let all = patch_lines(patch);
    let shown = preview_lines(all);
    let whole = patch_preview(patch);
    let old_lines = split::lines(patch.old_text);
    let new_lines = split::lines(patch.new_text);
    split::law_joining_keeps_every_part(shown, shown, "\n"@);
    assert(shown[0] == "    --- "@ + patch.path);
    text::lemma_stands_itself(patch.path);
    text::lemma_stands_added("    --- "@, patch.path, patch.path);
    text::lemma_stands_inside(whole, shown[0], patch.path);
    if all.len() <= MAX_PREVIEW_LINES {
        if 0 <= i < old_lines.len() {
            assert(shown[1 + i] == "    - "@ + old_lines[i]);
        }
        if 0 <= i < new_lines.len() {
            assert(shown[1 + old_lines.len() + i] == "    + "@ + new_lines[i]);
        }
    } else {
        let n = number::decimal((all.len() - MAX_PREVIEW_LINES) as nat);
        let last = "    … ("@ + n + " more lines)"@;
        assert(shown[MAX_PREVIEW_LINES as int] == last);
        assert(text::stands_in(last, n)) by {
            broadcast use text::group_stands;

        }
        text::lemma_stands_inside(whole, last, n);
    }
}

/// A tool of a server is offered as the server describes it, and asks first unless the server is
/// trusted.
#[verifier::rlimit(50)]
pub proof fn law_server_tools_are_offered_as_described(tool: McpTool, arguments: Seq<char>)
    ensures
        tool.definition_spec().name == tool.qualified_name@,
        tool.definition_spec().description == tool.description@,
        tool.definition_spec().parameters == tool.schema@,
        tool.confirmed_spec() <==> !tool.trusted,
        tool.preview_spec(arguments) matches Some(shown) && text::stands_in(shown, tool.remote_name@)
            && text::stands_in(shown, scan::trimmed(arguments)),
{
    broadcast use text::group_stands;

}

/// A patch is read from the call's arguments, each part from under its own key.
pub proof fn law_patches_are_read_from_their_keys(arguments: Seq<char>)
    ensures
        patch_of(arguments) matches Ok(patch) ==> (json::parsed(arguments) matches Ok(value)
            && json::text_under(value, "path"@) == Some(patch.path) && json::text_under(
            value,
            "new_text"@,
        ) == Some(patch.new_text) && (json::text_under(value, "old_text"@) matches Some(old_text)
            ==> patch.old_text == old_text)),
        json::parsed(arguments) is Err ==> patch_of(arguments) is Err,
        json::parsed(arguments) matches Ok(value) ==> (json::text_under(value, "path"@) is Some
            && json::text_under(value, "new_text"@) is Some ==> patch_of(arguments) is Ok),
        argument(RUN_COMMAND_TOOL@, arguments, "command"@) matches Ok(command) ==> (json::parsed(
            arguments,
        ) matches Ok(value) && json::text_under(value, "command"@) == Some(command)),
{
}

/// What went wrong with a call names the tool, the argument, the file and the cause, whichever there
/// are.
#[verifier::rlimit(50)]
pub proof fn law_tool_errors_name_what_is_wrong(
    tool: Seq<char>,
    key: Seq<char>,
    cause: Seq<char>,
    path: Seq<char>,
)
    ensures
        text::stands_in((ToolError::NotJson { cause }).words(), cause),
        text::stands_in((ToolError::Missing { tool, key }).words(), tool),
        text::stands_in((ToolError::Missing { tool, key }).words(), key),
        text::stands_in((ToolError::Empty { tool, key }).words(), tool),
        text::stands_in((ToolError::Empty { tool, key }).words(), key),
        text::stands_in((ToolError::Exists { path }).words(), path),
        (ToolError::Failed { cause }).words() == cause,
{
    broadcast use text::group_stands;

}

} // verus!
