use kamui::args::{parse_command, Command, Usage};
use kamui::command::{
    command_report, executed_command, format_command_output, plan_patch, route_through_rtk,
    timeout_report, PatchPlan,
};
use kamui::config::McpServer;
use kamui::context::{list_project_directory, read_project_file, Entry, FileFacts};
use kamui::mcp::{connect_all, qualified_name, RemoteTool};
use kamui::onboarding::{advance, Answer, Setup};
use kamui::provider::ToolCall;
use kamui::table::Table;
use kamui::tools::{
    call_arguments, is_preapproved, parse_patch_arguments, report_outcome, require_text,
    text_argument, McpTool, ToolError, ToolRegistry,
};

const ROOT: &str = "/tmp/project";

fn call(name: &str, arguments: &str) -> ToolCall {
    ToolCall { id: "c1".to_string(), name: name.to_string(), arguments: arguments.to_string() }
}

fn registry() -> ToolRegistry {
    ToolRegistry::with_defaults(Vec::new())
}

/// Read the file that a call asks for, as the project holds it.
fn read(call: &ToolCall, facts: FileFacts) -> Result<String, ToolError<String>> {
    let path = text_argument("read_file", &call.arguments, "path")?;
    read_project_file(ROOT, &path, facts).map_err(ToolError::Context)
}

fn file(path: &str, content: &str) -> FileFacts {
    FileFacts {
        found: Ok(path.to_string()),
        is_file: true,
        size: Ok(content.len() as u64),
        content: Ok(content.to_string()),
    }
}

#[test]
fn read_file_returns_file_contents() {
    let call = call("read_file", r#"{"path":"note.txt"}"#);
    let outcome = read(&call, file("/tmp/project/note.txt", "hello tools"));

    assert_eq!(registry().dispatch(&call, outcome), "hello tools");
}

#[test]
fn read_file_rejects_paths_outside_the_project() {
    let call = call("read_file", r#"{"path":"../secret.txt"}"#);
    let outcome = read(&call, file("/tmp/secret.txt", "secret"));

    assert!(registry().dispatch(&call, outcome).starts_with("Error:"));
}

#[test]
fn read_file_rejects_invalid_json_arguments() {
    let call = call("read_file", "not json");
    let outcome = read(&call, file("/tmp/project/x", ""));

    assert!(registry().dispatch(&call, outcome).starts_with("Error:"));
}

#[test]
fn dispatch_reports_unknown_tools() {
    let call = call("launch_missiles", "{}");

    let output = registry().dispatch(&call, Ok("launched".to_string()));
    assert!(output.contains("unknown tool"));
}

fn list(call: &ToolCall, found: &str, is_dir: bool, entries: &[Entry]) -> String {
    let outcome = text_argument("list_directory", &call.arguments, "path").and_then(|path| {
        list_project_directory(ROOT, &path, Ok(found.to_string()), is_dir, entries)
            .map_err(ToolError::Context)
    });
    registry().dispatch(call, outcome)
}

#[test]
fn list_directory_shows_directories_before_files() {
    let call = call("list_directory", r#"{"path":"."}"#);
    let output = list(
        &call,
        ROOT,
        true,
        &[
            Entry { is_dir: false, name: "README.md".to_string() },
            Entry { is_dir: true, name: "src".to_string() },
        ],
    );
    assert!(output.contains("src/"));
    assert!(output.contains("README.md"));
    assert!(output.find("src/").unwrap() < output.find("README.md").unwrap());
}

#[test]
fn list_directory_rejects_a_file_path() {
    let call = call("list_directory", r#"{"path":"note.txt"}"#);

    assert!(list(&call, "/tmp/project/note.txt", false, &[]).starts_with("Error:"));
}

#[test]
fn only_mutating_tools_require_confirmation() {
    let registry = registry();
    assert!(registry.requires_confirmation("run_command"));
    assert!(registry.requires_confirmation("patch_file"));
    assert!(!registry.requires_confirmation("read_file"));
    assert!(!registry.requires_confirmation("list_directory"));
    assert!(!registry.requires_confirmation("unknown"));
}

#[test]
fn run_command_reports_output_and_exit_code() {
    let call = call("run_command", r#"{"command":"echo kamui-ok"}"#);
    let outcome = text_argument("run_command", &call.arguments, "command").map(|command| {
        let executed = executed_command(&command, false);
        command_report(&executed, &format_command_output(Some(0), b"kamui-ok\n", b""))
    });

    let output = registry().dispatch(&call, outcome);
    assert!(output.starts_with("command: "));
    assert!(output.contains("exit code: 0"));
    assert!(output.contains("kamui-ok"));
}

#[test]
fn a_patch_leaves_other_line_endings_alone() {
    let arguments = r#"{"path":"m.txt","old_text":"a","new_text":"A"}"#;
    let planned = plan(arguments, ROOT, Some("a\r\nb\nc\n")).unwrap();
    assert_eq!(planned.content, "A\r\nb\nc\n");
    let across = r#"{"path":"m.txt","old_text":"a\nb","new_text":"A\nB"}"#;
    let planned = plan(across, ROOT, Some("x\n\r\na\r\nb\nc\n")).unwrap();
    assert_eq!(planned.content, "x\n\r\nA\r\nB\nc\n");
}

#[test]
fn only_listed_commands_run_unasked() {
    let allowed = vec!["git status".to_string()];
    assert!(is_preapproved("  git status\n", &allowed));
    assert!(!is_preapproved("git status -s", &allowed));
    assert!(!is_preapproved("git", &allowed));
    let registry = registry();
    let listed = call("run_command", r#"{"command":" git status "}"#);
    assert!(!registry.requires_confirmation_for(&listed, &allowed));
    assert!(registry.requires_confirmation_for(&listed, &[]));
    let other = call("run_command", r#"{"command":"git status; rm -r x"}"#);
    assert!(registry.requires_confirmation_for(&other, &allowed));
    assert!(registry.requires_confirmation_for(&call("run_command", "no"), &allowed));
    let patch = call("patch_file", r#"{"command":"git status"}"#);
    assert!(registry.requires_confirmation_for(&patch, &allowed));
}

#[test]
fn sub_agents_only_look() {
    let registry = ToolRegistry::read_only();
    let names: Vec<String> = registry.definitions().into_iter().map(|tool| tool.name).collect();
    assert_eq!(names, vec!["read_file", "list_directory"]);
    for name in ["read_file", "list_directory", "run_command", "patch_file"] {
        assert!(!registry.requires_confirmation_for(&call(name, "{}"), &[]));
    }
    let output = registry.dispatch(&call("run_command", "{}"), Ok("ran".to_string()));
    assert_eq!(output, "Error: unknown tool 'run_command'");
}

#[test]
fn servers_are_sent_the_arguments_as_json() {
    let value = call_arguments(r#" {"path": "a", "n": [1, true]} "#).unwrap();
    assert_eq!(value.to_string(), r#"{"n":[1,true],"path":"a"}"#);
    let error = call_arguments("{").unwrap_err();
    assert!(error.message().starts_with("tool arguments were not valid JSON: "));
}

fn patch_call(arguments: &str) -> ToolCall {
    call("patch_file", arguments)
}

fn plan(arguments: &str, found: &str, current: Option<&str>) -> Result<PatchPlan, ToolError<String>> {
    let args = parse_patch_arguments(arguments)?;
    let missing = || "No such file or directory (os error 2)".to_string();
    let facts = FileFacts {
        found: current.map(|_| format!("{found}/{}", args.path)).ok_or_else(missing),
        is_file: current.is_some(),
        size: Ok(current.unwrap_or("").len() as u64),
        content: current.map(str::to_string).ok_or_else(missing),
    };
    plan_patch(ROOT, &args, Ok(found.to_string()), true, current.is_some(), facts)
}

/// What a call of `patch_file` is answered.
fn patch(arguments: &str, found: &str, current: Option<&str>) -> String {
    let outcome = plan(arguments, found, current).map(|plan| plan.message);
    registry().dispatch(&patch_call(arguments), outcome)
}

#[test]
fn patch_file_replaces_an_exact_match() {
    let arguments = r#"{"path":"main.rs","old_text":"old();","new_text":"new();"}"#;
    let current = Some("fn main() { old(); }\n");

    assert_eq!(patch(arguments, ROOT, current), "patched main.rs");
    let planned = plan(arguments, ROOT, current).unwrap();
    assert_eq!(planned.content, "fn main() { new(); }\n");
    assert_eq!(planned.target, "/tmp/project/main.rs");
}

#[test]
fn patch_file_matches_across_line_endings() {
    // A CRLF file, but the model's old_text uses LF.
    let arguments = r#"{"path":"crlf.txt","old_text":"line one\nline two","new_text":"line one\nLINE TWO"}"#;
    let current = Some("line one\r\nline two\r\nline three\r\n");

    assert_eq!(patch(arguments, ROOT, current), "patched crlf.txt");
    // The edit applies and the CRLF line endings are preserved.
    assert_eq!(
        plan(arguments, ROOT, current).unwrap().content,
        "line one\r\nLINE TWO\r\nline three\r\n"
    );
}

#[test]
fn patch_file_creates_a_new_file_when_old_text_is_empty() {
    let arguments = r#"{"path":"NEW.md","old_text":"","new_text":"hello\n"}"#;

    assert!(patch(arguments, ROOT, None).starts_with("created NEW.md"));
    let planned = plan(arguments, ROOT, None).unwrap();
    assert_eq!(planned.content, "hello\n");
    assert_eq!(planned.message, "created NEW.md (6 bytes)");
}

#[test]
fn patch_file_refuses_to_create_over_an_existing_file() {
    let arguments = r#"{"path":"a.txt","old_text":"","new_text":"x"}"#;

    assert!(patch(arguments, ROOT, Some("content")).starts_with("Error:"));
    assert!(plan(arguments, ROOT, Some("content")).is_err());
}

#[test]
fn patch_file_rejects_missing_and_ambiguous_matches() {
    let current = Some("one two one");
    let missing = patch(r#"{"path":"a.txt","old_text":"three","new_text":"x"}"#, ROOT, current);
    let ambiguous = patch(r#"{"path":"a.txt","old_text":"one","new_text":"x"}"#, ROOT, current);

    assert!(missing.contains("not found"));
    assert!(ambiguous.contains("2 times"));
}

#[test]
fn patch_file_rejects_paths_outside_the_project() {
    let arguments = r#"{"path":"../escape.txt","old_text":"","new_text":"x"}"#;

    assert!(patch(arguments, "/tmp", None).starts_with("Error:"));
}

#[test]
fn patch_preview_shows_removed_and_added_lines() {
    let preview = registry()
        .preview(&patch_call(
            r#"{"path":"src/a.rs","old_text":"let a = 1;","new_text":"let a = 2;"}"#,
        ))
        .unwrap();

    assert!(preview.contains("--- src/a.rs"));
    assert!(preview.contains("- let a = 1;"));
    assert!(preview.contains("+ let a = 2;"));
}

#[test]
fn routes_only_simple_commands_when_rtk_is_available() {
    assert!(route_through_rtk("cargo test", true));
    assert!(route_through_rtk("  git status  ", true));

    // Never without rtk.
    assert!(!route_through_rtk("cargo test", false));
    // Never double-prefix a command the model already routed.
    assert!(!route_through_rtk("rtk cargo test", true));
    assert!(!route_through_rtk("rtk", true));
    assert!(!route_through_rtk("rtk\tls", true));
    assert!(route_through_rtk("rtkfoo ls", true));
    // Shell operators would leave rtk applied to the first segment only.
    assert!(!route_through_rtk("cargo build && cargo test", true));
    assert!(!route_through_rtk("cargo test | tail -5", true));
    assert!(!route_through_rtk("echo a; echo b", true));
    assert!(!route_through_rtk("cargo test > out.txt", true));
    assert!(!route_through_rtk("echo $HOME", true));
}

#[test]
fn arguments_must_hold_what_a_tool_needs() {
    assert_eq!(text_argument("read_file", r#"{"path":"a"}"#, "path").unwrap(), "a");
    let missing = text_argument("read_file", r#"{"path":7}"#, "path").unwrap_err();
    assert_eq!(missing.message(), "read_file requires a 'path' string argument");
    assert!(require_text("t", "k", None).is_err());
    let broken = report_outcome(text_argument("read_file", "{", "path"));
    assert!(broken.starts_with("Error: tool arguments were not valid JSON: "), "{broken}");
    let patch = parse_patch_arguments(r#"{"path":"a","new_text":"b"}"#).unwrap();
    assert_eq!((patch.old_text.as_str(), patch.new_text.as_str()), ("", "b"));
    assert!(parse_patch_arguments(r#"{"path":"a"}"#).is_err());
    assert!(parse_patch_arguments(r#"{"new_text":"a"}"#).is_err());
}

#[test]
fn output_is_made_readable_and_cut() {
    let odd = format_command_output(Some(1), b"ok\xff", b"");
    assert!(odd.contains("ok\u{fffd}"), "{odd}");
    assert!(odd.starts_with("exit code: 1\n"), "{odd}");
    assert!(format_command_output(None, b"", b"bad").contains("bad"));
    let long = format_command_output(Some(0), &vec![b'x'; 20_000], b"");
    assert!(long.contains("truncated"), "{}", &long[long.len() - 60..]);
    assert!(long.len() < 17_000);
    assert_eq!(
        timeout_report(30),
        "Error: command timed out after 30 seconds and was terminated"
    );
    assert_eq!(executed_command(" cargo test ", true), "rtk cargo test");
}

#[test]
fn tools_of_servers_join_the_registry() {
    let server = |name: &str, enabled: bool, trusted: bool| McpServer {
        name: name.to_string(),
        command: "run".to_string(),
        args: Vec::new(),
        trusted,
        env: Table::new(),
        url: None,
        headers: Table::new(),
        enabled,
    };
    let tool = RemoteTool {
        name: "read".to_string(),
        description: None,
        schema: r#"{"type":"object"}"#.to_string(),
    };
    let connections = connect_all(
        &[server("excel", true, true), server("off", false, false), server("bad", true, false)],
        vec![Ok(vec![tool]), Ok(Vec::new()), Err("spawn failed".to_string())],
    );
    assert_eq!(connections.tools.len(), 1);
    assert_eq!(connections.tools[0].qualified_name, qualified_name("excel", "read"));
    assert_eq!(connections.statuses.len(), 3);
    assert!(connections.statuses[1].disabled);
    assert_eq!(connections.statuses[2].error.as_deref(), Some("spawn failed"));

    let untrusted = McpTool {
        qualified_name: "mcp__x__write".to_string(),
        remote_name: "write".to_string(),
        description: "d".to_string(),
        schema: "{}".to_string(),
        trusted: false,
    };
    let mut tools = connections.tools;
    tools.push(untrusted);
    let registry = ToolRegistry::with_defaults(tools);
    assert_eq!(registry.definitions().len(), 6);
    assert!(!registry.requires_confirmation(&qualified_name("excel", "read")));
    assert!(registry.requires_confirmation("mcp__x__write"));
    assert!(registry.find("mcp__x__write").is_some());
}

fn words(list: &[&str]) -> Vec<String> {
    list.iter().map(|word| word.to_string()).collect()
}

#[test]
fn arguments_of_the_program_are_read() {
    assert!(matches!(parse_command(&words(&[])), Ok(Command::Chat(None))));
    match parse_command(&words(&["-r", "abc"])) {
        Ok(Command::Chat(Some(id))) => assert_eq!(id, "abc"),
        _ => panic!("a session"),
    }
    assert!(matches!(parse_command(&words(&["--resume", "abc"])), Ok(Command::Chat(Some(_)))));
    assert!(matches!(parse_command(&words(&["-r"])), Err(Usage::Resume)));
    assert!(matches!(parse_command(&words(&["--help"])), Ok(Command::Help)));
    assert!(matches!(parse_command(&words(&["-V"])), Ok(Command::Version)));
    let usage = parse_command(&words(&["what"])).unwrap_err();
    assert!(usage.message().contains("kamui"), "{}", usage.message());
}

#[test]
fn setup_leads_to_a_model_or_ends() {
    let credentials = || Answer::Credentials {
        base_url: "https://x/v1/".to_string(),
        api_key: " key ".to_string(),
    };
    let checking = advance(Setup::Provider, credentials());
    let choosing = advance(checking, Answer::Models(words(&["a", "b"])));
    match advance(choosing, Answer::Chosen(1)) {
        Setup::Saving { base_url, api_key, model } => {
            assert_eq!(base_url, "https://x/v1");
            assert_eq!(api_key, "key");
            assert_eq!(model, "b");
        }
        _ => panic!("ready to save"),
    }
    let retrying = advance(advance(Setup::Provider, credentials()), Answer::NoModels);
    assert!(matches!(retrying, Setup::Retrying));
    assert!(matches!(advance(Setup::Retrying, Answer::Again(true)), Setup::Provider));
    assert!(matches!(advance(Setup::Retrying, Answer::Again(false)), Setup::Cancelled));
}
