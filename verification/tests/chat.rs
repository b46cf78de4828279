use kamui::chat::{
    choose_profile, choose_theme, session_to_resume, CompactionStep, Conversation, Trigger, NEW_CHAT,
};
use kamui::commands::{edit_distance, nearest_command, resolve_builtin_command};
use kamui::config::{Config, McpServer, ModelPrice, Prices, Profile, Theme};
use kamui::context::Expanded;
use kamui::dialog::{
    added_profile, forgot_all, mcp_applied_note, mcp_command, mcp_toggled_note, mirror_enabled,
    no_matches, print_history_preview, provider_base, question_text, replay_note,
    replay_tui_history, resolve_answer, server_enabled, skip_count, skills_action, status_line,
    switch_note, switch_server, theme_list, toggle_mcp, McpCommand, SkillsAction,
    RESUME_REPLAY_MESSAGES,
};
use kamui::dispatch::{
    parse_session_command, read_input, route, split_command, unknown_command, Line, Route,
    SessionCommand,
};
use kamui::index::{
    check_batch, check_search, content_hash, embedding_batches, embedding_model, format_hits,
    index_refresh_message, index_staleness, is_current, refresh, refresh_action, Action, CodeHit,
    IndexRun, IndexStaleness, Refresh,
};
use kamui::mcp::ConnectionStatus;
use kamui::memory::{
    forget, remember, report_memory, told_forgotten, told_remembered, told_updated, update,
    MAX_MEMORY_BYTES,
};
use kamui::mode::{
    decide_alone, is_memory_tool, is_plan_approval, looks_like_multi_step, Consent, Decision, Gate,
    Mode, PlanStatus,
};
use kamui::panel::{
    mcp_sidebar_value, model_dialog_items, model_label, print_mcp, print_status, read_git_status,
    tools_disabled_note, StatusFacts,
};
use kamui::provider::{ImageAttachment, Message, Role, ToolCall, ToolDefinition, Usage};
use kamui::reports::{
    cost_cell, farewell, format_memory_rows, format_search_hits, format_session_rows,
    format_timestamp, model_row, print_help, print_stats, print_usage_report, time_or_note, usage_row,
    CacheFigures, Cost, ModelFigures, PeriodFigures, SessionFigures, UNPRICED_NOTE,
};
use kamui::revert::{note_edit, patch_target, removal, FileState, RemoveFault, RevertOutcome, Snapshot};
use kamui::sidebar::{
    activity, cache_miss_label, entries_push, format_usage, last_turn, session_cache_line,
    sidebar_entries, token_badge, CacheWatch, RequestFacts, RuntimeFacts, TokenFacts,
};
use kamui::skills::{
    print_commands, print_skills, skill_fix_report, warnings_action, SkillEntry, WarningsAction,
};
use kamui::snippet::{
    clean_title, describe_attachments, display_path, format_bytes, format_duration, make_snippet,
    preview_output, short_id, tool_body,
};
use kamui::storage::{
    make_title, session_with_id, MemoryEntry, ModelStat, SearchHit, Session, SessionStats,
    SessionSummary, UsagePeriod,
};
use kamui::table::Table;
use kamui::tools::ToolError;
use kamui::tui::{builtins, truncate_chars, CustomCommand, Skill};
use kamui::turn::{
    accumulate_usage, answer_without_running, begin_sub_agent, build_head_messages, failed_visual,
    offered_tools, render_memory_snapshot, spawn_calls, spawned_output, sub_agent_batches, sub_agent_session_id,
    title_messages, visual_follows, visual_message, volatile_tail, Answer, Steering, Step, Turn, MAX_TOOL_ROUNDS,
};
use std::hash::{Hash, Hasher};

fn summary(id: &str, title: &str) -> SessionSummary {
    SessionSummary {
        id: id.to_string(),
        title: title.to_string(),
        message_count: 2,
        total_tokens: 100,
        updated_at: 0,
    }
}

#[test]
fn tui_resume_replays_a_tail_of_stored_messages() {
    assert_eq!(skip_count(0, RESUME_REPLAY_MESSAGES), 0);
    assert_eq!(skip_count(4, RESUME_REPLAY_MESSAGES), 0);
    assert_eq!(
        skip_count(14, RESUME_REPLAY_MESSAGES),
        4,
        "older turns stay in model context but off the screen"
    );
    assert!(replay_note(0).is_none());
    assert_eq!(
        replay_note(4).unwrap(),
        "4 earlier message(s) not replayed \u{2014} still in context"
    );
}

fn image(media: &str, decoded_bytes: usize) -> ImageAttachment {
    ImageAttachment {
        media_type: media.to_string(),
        // Base64 spends four characters per three bytes.
        data: "A".repeat(decoded_bytes / 3 * 4),
    }
}

/// An expansion carrying the given images and file counts.
fn expanded(images: Vec<ImageAttachment>, attached: u64, omitted: u64) -> Expanded {
    Expanded {
        text: String::new(),
        images,
        attached_files: attached,
        omitted_files: omitted,
    }
}

fn figures() -> SessionFigures {
    SessionFigures {
        cost: None,
        cached: "0".to_string(),
        samples: vec![(400, 0)],
        cache: None,
        context: "40.0".to_string(),
        last_cached: "0".to_string(),
        models: Vec::new(),
    }
}

fn one_turn() -> SessionStats {
    SessionStats {
        request_count: 1,
        input_tokens: 400,
        output_tokens: 50,
        total_tokens: 450,
        cached_tokens: 0,
        last_input_tokens: Some(400),
        last_cached_tokens: Some(0),
    }
}

#[test]
fn stats_put_the_context_line_in_the_report_not_on_stdout() {
    let mut out = String::new();
    print_stats("New chat", &one_turn(), &figures(), Some(1000), &mut out);

    assert!(out.contains("Last context:"), "the line is in the report: {out:?}");
    assert!(out.contains("400/1000"), "with the numbers: {out:?}");
    assert!(out.contains("40.0%"), "and the percentage: {out:?}");
    assert_eq!(
        out,
        "\nSession:       New chat\nRequests:      1\nInput tokens:  400\nOutput tokens: 50\n\
         Total tokens:  450\nLast context:  400/1000 (40.0%)\n\n"
    );
}

#[test]
fn stats_omit_the_context_line_when_no_window_is_configured() {
    let mut out = String::new();
    print_stats("New chat", &one_turn(), &figures(), None, &mut out);

    assert!(!out.contains("Last context:"), "nothing to measure against: {out:?}");
}

#[test]
fn stats_tell_of_costs_caches_and_models() {
    let stat = |model: &str| ModelStat {
        model: model.to_string(),
        request_count: 1,
        input_tokens: 10,
        output_tokens: 4,
        total_tokens: 14,
        cached_tokens: 2,
    };
    let facts = SessionFigures {
        cost: Some(Cost { text: "$1.0000".to_string(), has_unpriced: false }),
        cached: "25".to_string(),
        samples: vec![(400, 0), (400, 100)],
        cache: Some(CacheFigures {
            median: "25".to_string(),
            measured: 1,
            most: "0".to_string(),
            nearly_all: "0".to_string(),
            warmup: 1,
        }),
        context: "40.0".to_string(),
        last_cached: "25".to_string(),
        models: vec![
            ModelFigures { stat: stat("a"), cost: None },
            ModelFigures {
                stat: stat("b"),
                cost: Some(Cost { text: "unpriced".to_string(), has_unpriced: true }),
            },
        ],
    };
    let stats = SessionStats {
        cached_tokens: 100,
        last_cached_tokens: Some(100),
        ..one_turn()
    };
    let mut out = String::new();
    print_stats("t", &stats, &facts, Some(1000), &mut out);
    assert!(out.contains("Cost:          $1.0000\n"), "{out}");
    assert!(out.contains("Cached tokens: 100 (25%)\n"), "{out}");
    assert!(
        out.contains(
            "Prompt cache:  median 25% over 1 turns | \u{2265}90%: 0% | \u{2265}95%: 0% | warm-up: 1\n"
        ),
        "{out}"
    );
    assert!(out.contains("(40.0%) | Cached: 100 (25%)\n"), "{out}");
    assert!(out.contains("\n--- Per model ---\n"), "{out}");
    assert!(out.contains("       2 cached"), "{out}");
    assert!(out.contains(UNPRICED_NOTE), "{out}");
}

#[test]
fn a_text_only_prompt_says_nothing_about_attachments() {
    assert!(describe_attachments(&expanded(Vec::new(), 0, 0)).is_none());
}

#[test]
fn files_left_out_of_a_directory_are_reported_too() {
    let note = describe_attachments(&expanded(Vec::new(), 12, 38)).expect("a note");
    assert!(note.contains("12 file(s) attached"), "{note}");
    assert!(note.contains("38 left out"), "{note}");
    assert!(note.contains("context budget"), "the reason is given: {note}");

    // A directory that fitted entirely says nothing about omissions.
    let full = describe_attachments(&expanded(Vec::new(), 4, 0)).expect("a note");
    assert!(full.contains("4 file(s) attached"), "{full}");
    assert!(!full.contains("left out"), "{full}");
}

#[test]
fn attached_images_are_reported_with_type_and_size() {
    let note = describe_attachments(&expanded(vec![image("image/png", 210 * 1024)], 0, 0))
        .expect("a note");
    assert!(note.contains("1 image(s)"), "{note}");
    assert!(note.contains("image/png"), "{note}");
    assert!(note.contains("KiB"), "{note}");
    assert!(note.contains("vision model"), "the requirement is stated: {note}");

    let two = describe_attachments(&expanded(
        vec![image("image/png", 1024), image("image/jpeg", 2048)],
        0,
        0,
    ))
    .expect("a note");
    assert!(two.contains("2 image(s)"), "{two}");
    assert!(two.contains("image/jpeg"), "{two}");
}

#[test]
fn byte_sizes_scale_to_readable_units() {
    assert_eq!(format_bytes(512), "512 B");
    assert_eq!(format_bytes(2048), "2 KiB");
    assert_eq!(format_bytes(3 * 1024 * 1024), "3.0 MiB");
}

#[test]
fn sizes_in_mebibytes_read_as_floats_do() {
    let sizes: [usize; 8] = [
        1_048_576,
        1_100_000,
        1_153_433,
        1_153_434,
        5_557_452,
        123_456_789,
        9_007_199_254_740_993,
        usize::MAX,
    ];
    for size in sizes {
        assert_eq!(
            format_bytes(size),
            format!("{:.1} MiB", size as f64 / (1024.0 * 1024.0)),
            "{size}"
        );
    }
}

#[test]
fn session_listing_puts_each_session_on_its_own_row() {
    let rows = format_session_rows(
        &[
            summary("aaaaaaaa-1111", "first"),
            summary("bbbbbbbb-2222", "second"),
            summary("cccccccc-3333", "third"),
        ],
        Some("bbbbbbbb-2222"),
    );
    let lines: Vec<&str> = rows.lines().collect();
    assert_eq!(lines.len(), 3, "one row per session: {rows:?}");
    assert!(lines[0].starts_with("  "), "inactive rows are unmarked: {:?}", lines[0]);
    assert!(lines[1].starts_with("* "), "the active session is marked: {:?}", lines[1]);
    assert!(lines[2].contains("third"), "{:?}", lines[2]);
    assert!(lines[2].ends_with("   2 messages       100 tokens"), "{:?}", lines[2]);
}

#[test]
fn times_out_of_range_are_unknown() {
    assert_eq!(format_timestamp(i64::MAX), "unknown time");
    assert_eq!(format_timestamp(-8_334_601_228_801), "unknown time");
    assert_eq!(format_timestamp(8_210_266_876_800), "unknown time");
    let noon = format_timestamp(1_000_000_000);
    assert!(noon.starts_with("2001-09-"), "{noon}");
    assert_eq!(noon.len(), 16, "{noon}");
    // The ends of the range are times too.
    assert!(format_timestamp(8_210_266_876_799).len() >= 16);
    assert!(format_timestamp(-8_334_601_228_800).len() >= 16);
    assert_eq!(time_or_note(Some("noon".to_string())), "noon");
    assert_eq!(time_or_note(None), "unknown time");
}

#[test]
fn times_are_shown_as_the_local_time_of_their_second() {
    let seconds =
        [0, 1, 951_782_399, 951_782_400, 1_700_000_000, -1, -62_135_596_801, 253_402_300_800];
    for second in seconds {
        let shown = format_timestamp(second);
        let local = chrono::TimeZone::timestamp_opt(&chrono::Local, second, 0).unwrap();
        assert_eq!(shown, local.format("%Y-%m-%d %H:%M").to_string());
        let read = chrono::NaiveDateTime::parse_from_str(&shown, "%Y-%m-%d %H:%M").unwrap();
        let apart = read.and_utc().timestamp() - (second - second.rem_euclid(60));
        assert!(-86_400 < apart && apart < 86_400, "{shown} for {second}");
    }
    assert_ne!(format_timestamp(0), format_timestamp(1_700_000_000));
    // Years of more or fewer digits than four.
    assert!(format_timestamp(1_000_000_000_000).starts_with("+33658-"));
    assert!(format_timestamp(-70_000_000_000).starts_with("-0249-"));
    assert!(format_timestamp(-60_000_000_000).starts_with("0068-"));
}

#[test]
fn search_listing_puts_each_hit_on_its_own_row() {
    let hits = vec![
        SearchHit {
            session_id: "aaaaaaaa-1111".into(),
            title: "a chat".into(),
            role: "user".into(),
            content: "the needle is here".into(),
            created_at: 0,
        },
        SearchHit {
            session_id: "bbbbbbbb-2222".into(),
            title: "another".into(),
            role: "assistant".into(),
            content: "needle again".into(),
            created_at: 0,
        },
    ];
    let rows = format_search_hits(&hits, "needle");
    assert_eq!(rows.lines().count(), 2, "one row per hit: {rows:?}");
    assert!(rows.lines().next().unwrap().contains("You:"), "{rows:?}");
    assert!(rows.lines().nth(1).unwrap().contains("Assistant:"), "{rows:?}");
}

#[test]
fn memory_listing_puts_each_fact_on_its_own_row() {
    let entries = vec![
        MemoryEntry { content: "prefers rust".into() },
        MemoryEntry { content: "lives in jakarta".into() },
    ];
    let rows = format_memory_rows(&entries);
    let lines: Vec<&str> = rows.lines().collect();
    assert_eq!(lines[0], "Remembered facts:");
    assert_eq!(lines[1], "- prefers rust");
    assert_eq!(lines[2], "- lives in jakarta");
    assert!(rows.contains("/forget"), "the removal hint survives: {rows:?}");
}

#[test]
fn every_advertised_command_is_dispatched_somewhere() {
    for command in builtins() {
        let line = format!("/{}", command.name);
        for tui in [true, false] {
            let early = matches!(read_input(&line), Line::Exit);
            let inline = route(&line, "", tui) != Route::Session;
            let arm = !matches!(
                parse_session_command(&line, ""),
                Ok(SessionCommand::Unknown { .. })
            );
            assert!(
                inline || arm || early,
                "{line} is offered by the slash menu but nothing handles it"
            );
        }
    }
}

#[test]
fn unknown_commands_suggest_the_nearest_builtin() {
    assert_eq!(nearest_command("/sess").as_deref(), Some("sessions"));
    assert_eq!(nearest_command("/sesions").as_deref(), Some("sessions"));
    assert_eq!(nearest_command("/stat").as_deref(), Some("stats"));
    // Two edits away still earns a suggestion: /quit is a common try for /exit.
    assert_eq!(nearest_command("/quit").as_deref(), Some("exit"));
    assert_eq!(nearest_command("/deploy"), None, "nothing close enough to guess");
    assert_eq!(nearest_command("/"), None);
}

#[test]
fn edit_distance_counts_single_character_edits() {
    assert_eq!(edit_distance("", "abc"), 3);
    assert_eq!(edit_distance("abc", "abc"), 0);
    assert_eq!(edit_distance("abc", "abd"), 1);
    assert_eq!(edit_distance("ab", "abc"), 1);
}

fn status(name: &str, tools: usize, trusted: bool, error: Option<&str>) -> ConnectionStatus {
    ConnectionStatus {
        name: name.to_string(),
        tool_count: tools,
        trusted,
        disabled: false,
        error: error.map(str::to_string),
    }
}

fn profile(name: &str, model: &str, tools: bool) -> Profile {
    Profile {
        name: name.to_string(),
        model: model.to_string(),
        base_url: "http://localhost".to_string(),
        api_key: "k".to_string(),
        context_window: None,
        tools,
        embedding_model: None,
        completions_path: None,
        send_session_id: false,
    }
}

#[test]
fn tab_cycles_forward_through_every_mode_and_back() {
    let mut mode = Mode::Build;
    let mut seen = Vec::new();
    for _ in 0..3 {
        mode = mode.next();
        seen.push(mode);
    }
    assert_eq!(seen, vec![Mode::Auto, Mode::Plan, Mode::Build], "the cycle closes");
    // Shift+Tab retraces it exactly.
    assert_eq!(Mode::Build.prev(), Mode::Plan);
    assert_eq!(Mode::Plan.prev(), Mode::Auto);
    assert_eq!(Mode::Auto.prev(), Mode::Build);
}

#[test]
fn modes_are_addressable_by_name() {
    assert_eq!(Mode::parse("plan"), Some(Mode::Plan));
    assert_eq!(Mode::parse("  AUTO "), Some(Mode::Auto), "case and space are forgiven");
    assert_eq!(Mode::parse("bypass"), Some(Mode::Auto), "what it does, not just its name");
    assert_eq!(Mode::parse("normal"), Some(Mode::Build));
    assert_eq!(Mode::parse("yolo"), None);
}

#[test]
fn every_mode_says_what_it_permits() {
    for mode in [Mode::Build, Mode::Auto, Mode::Plan] {
        assert!(mode.describe().starts_with(mode.label()), "{}", mode.describe());
        assert!(
            mode.describe().len() > mode.label().len() + 10,
            "{} explains nothing",
            mode.label()
        );
    }
    assert!(Mode::Auto.describe().contains("without asking"));
    assert!(Mode::Auto.describe().contains("this session"), "the blast radius is stated");
    assert!(Mode::Plan.describe().contains("read-only"));
}

#[test]
fn the_model_row_says_when_a_profile_has_no_tools() {
    assert_eq!(model_label(&profile("muse", "orvix/auto", true)), "orvix/auto");
    let off = model_label(&profile("ornith", "ornith:latest", false));
    assert!(off.starts_with("ornith:latest"), "{off}");
    assert!(off.contains("no tools"), "{off}");
}

#[test]
fn disabled_tools_are_explained_in_full() {
    assert!(tools_disabled_note(&profile("muse", "orvix/auto", true)).is_none());
    let note = tools_disabled_note(&profile("ornith", "ornith:latest", false)).expect("note");
    assert!(note.contains("ornith"), "names the profile: {note}");
    assert!(note.contains("tools = false"), "names the setting: {note}");
    assert!(note.contains("/model"), "offers a way out: {note}");
}

#[test]
fn mcp_sidebar_lists_every_server_with_its_tool_count() {
    let value = mcp_sidebar_value(&[
        status("mcptools", 79, false, None),
        status("filesystem", 11, true, None),
    ]);
    let rows: Vec<&str> = value.split('\n').collect();
    assert_eq!(rows.len(), 4, "two rows per server: {rows:?}");
    assert!(rows[0].contains("mcptools"), "{rows:?}");
    assert!(rows[1].contains("79 tool(s)"), "{rows:?}");
}

#[test]
fn mcp_sidebar_names_a_server_that_failed_to_start() {
    // Dropping it would make a broken server look like an unconfigured one.
    let value = mcp_sidebar_value(&[status("excel", 0, false, Some("spawn failed"))]);
    assert!(value.contains("excel"), "{value}");
    assert!(value.contains("unavailable"), "{value}");
}

#[test]
fn mcp_sidebar_is_empty_without_servers() {
    assert!(mcp_sidebar_value(&[]).is_empty());
}

fn warn(folder: &str, reason: &str) -> String {
    format!("skill '{folder}' in /skills {reason}")
}

#[test]
fn skill_fix_report_counts_a_full_repair() {
    let before = vec![
        warn("alpha", "is invalid: missing name"),
        warn("beta", "is missing SKILL.md"),
    ];
    let report = skill_fix_report(&before, &[]);
    assert!(report.summary.contains("all 2 folder(s) now load"), "{}", report.summary);
    assert!(report.banner.is_none(), "banner clears once nothing fails");
}

#[test]
fn skill_fix_report_counts_a_partial_repair() {
    let before = vec![
        warn("alpha", "is invalid: missing name"),
        warn("beta", "is missing SKILL.md"),
        warn("gamma", "is invalid: missing description"),
    ];
    let after = vec![warn("gamma", "is invalid: missing description")];
    let report = skill_fix_report(&before, &after);
    assert!(
        report.summary.contains("2 of 3 folder(s) fixed, 1 still failing"),
        "{}",
        report.summary
    );
    assert!(report.banner.is_some(), "banner still names the remaining failure");
}

#[test]
fn a_folder_failing_for_a_new_reason_does_not_count_as_fixed() {
    let before = vec![warn("alpha", "is missing SKILL.md")];
    let after = vec![warn("alpha", "is invalid: missing description")];
    let report = skill_fix_report(&before, &after);
    assert!(report.summary.contains("nothing fixed"), "{}", report.summary);
}

#[test]
fn skill_fix_report_flags_folders_broken_by_the_repair() {
    let before = vec![warn("alpha", "is missing SKILL.md")];
    let after = vec![warn("beta", "is invalid: missing name")];
    let report = skill_fix_report(&before, &after);
    assert!(report.summary.contains("1 of 1 folder(s) fixed"), "{}", report.summary);
    assert!(report.summary.contains("newly broken"), "{}", report.summary);
}

fn prices(model: Option<&str>) -> Prices {
    let mut models = Table::new();
    if let Some(model) = model {
        models.insert(
            model.to_string(),
            ModelPrice {
                input_per_million: 1.0f64.to_bits(),
                output_per_million: 2.0f64.to_bits(),
            },
        );
    }
    Prices { currency: None, models }
}

fn tallied(text: &str, has_unpriced: bool) -> Cost {
    Cost { text: text.to_string(), has_unpriced }
}

#[test]
fn reports_are_unchanged_when_no_prices_are_configured() {
    let period = UsagePeriod {
        period: "2026-08-20".to_string(),
        request_count: 3,
        input_tokens: 10,
        output_tokens: 4,
        total_tokens: 14,
        cached_tokens: 0,
    };
    let stat = ModelStat {
        model: "gpt-5".to_string(),
        request_count: 3,
        input_tokens: 10,
        output_tokens: 4,
        total_tokens: 14,
        cached_tokens: 0,
    };

    assert!(cost_cell(&prices(None), tallied("$0.0000", true)).is_none());
    assert_eq!(
        usage_row(&period, None, ""),
        "  2026-08-20    3 req          10 in           4 out          14 total"
    );
    assert_eq!(
        model_row(&stat, None),
        "  gpt-5                      3 req        10 in         4 out        14 total"
    );
}

#[test]
fn a_configured_price_adds_a_cost_cell_to_a_report_row() {
    let period = UsagePeriod {
        period: "2026-08-20".to_string(),
        request_count: 1,
        input_tokens: 1_000_000,
        output_tokens: 500_000,
        total_tokens: 1_500_000,
        cached_tokens: 0,
    };

    let cell = cost_cell(&prices(Some("gpt-5")), tallied("$2.0000", false)).unwrap();

    assert_eq!(cell.text, "$2.0000");
    assert!(!cell.has_unpriced);
    assert!(usage_row(&period, Some(&cell.text), "").ends_with("total       $2.0000"));
}

fn period(name: &str, cached: i64, cost: Option<Cost>) -> PeriodFigures {
    PeriodFigures {
        period: UsagePeriod {
            period: name.to_string(),
            request_count: 1,
            input_tokens: 10,
            output_tokens: 4,
            total_tokens: 14,
            cached_tokens: cached,
        },
        cost,
        percent: "50".to_string(),
    }
}

#[test]
fn usage_is_reported_by_day_and_by_month() {
    let mut out = String::new();
    print_usage_report(&[], &[], &period("all", 0, None), &mut out);
    assert_eq!(out, "No usage recorded yet.\n\n");

    let mut out = String::new();
    print_usage_report(
        &[period("2026-08-20", 5, None)],
        &[period("2026-08", 0, None)],
        &period("total", 0, None),
        &mut out,
    );
    assert!(out.starts_with("\nLast 14 days\n"), "{out}");
    assert!(out.contains("       5 cached (50%)\n"), "{out}");
    assert!(!out.contains("By month"), "one month adds nothing: {out}");
    assert!(!out.contains(UNPRICED_NOTE), "{out}");

    let mut out = String::new();
    print_usage_report(
        &[period("2026-08-20", 0, None)],
        &[period("2026-07", 0, None), period("2026-08", 0, Some(tallied("unpriced", true)))],
        &period("total", 0, None),
        &mut out,
    );
    assert!(out.contains("\nBy month\n"), "{out}");
    assert!(out.contains(UNPRICED_NOTE), "{out}");
}

#[test]
fn git_status_reports_branch_and_changed_files() {
    let status =
        read_git_status(Some("status-test\n"), None, Some("?? one.txt\n?? two.txt\n")).unwrap();
    assert_eq!(status.branch, "status-test");
    assert_eq!(status.changed, 2);

    let detached = read_git_status(Some("\n"), Some("abc1234\n"), Some("")).unwrap();
    assert_eq!(detached.branch, "detached@abc1234");
    assert_eq!(detached.changed, 0);

    assert!(read_git_status(None, None, Some("")).is_none());
    assert!(read_git_status(Some("main"), None, None).is_none());
    assert!(read_git_status(Some(""), None, Some("")).is_none());
}

#[test]
fn make_title_truncates_long_input() {
    assert_eq!(make_title("short"), "short");
    let title = make_title(&"a".repeat(45));
    assert_eq!(title.chars().count(), 43); // 40 characters plus "..."
    assert!(title.ends_with("..."));
}

#[test]
fn clean_title_strips_wrapping_punctuation_and_extra_lines() {
    assert_eq!(clean_title("\"Rust Ownership\""), "Rust Ownership");
    assert_eq!(clean_title("Title:\nsecond line"), "Title");
    assert_eq!(clean_title("  spaced.  "), "spaced");
}

#[test]
fn truncate_appends_ellipsis_only_when_needed() {
    assert_eq!(truncate_chars("hello", 10), "hello");
    // The ellipsis lives inside the budget. This used to return six columns for a
    // budget of five, overflowing every column it was sized for.
    assert_eq!(truncate_chars("hello world", 5), "hell…");
    assert_eq!(truncate_chars("hello", 0), "");
}

#[test]
fn preview_output_caps_lines_and_chars() {
    let many_lines = (0..25).map(|i| format!("line {i}")).collect::<Vec<_>>().join("\n");
    let previewed = preview_output(&many_lines);
    assert!(previewed.contains("lines hidden, collapsed"));
    assert!(previewed.starts_with("line 0"));
    assert!(previewed.contains("line 24"));
    assert_eq!(preview_output("short"), "short");
    assert!(!preview_output(&"x".repeat(1200)).ends_with('x'));
}

#[test]
fn short_id_takes_the_first_eight_characters() {
    assert_eq!(short_id("0123456789"), "01234567");
    assert_eq!(short_id("abc"), "abc");
    assert_eq!(short_id("1234567é9"), "1234567é9", "an id is never cut within a character");
}

#[test]
fn display_path_trims_windows_verbatim_prefixes() {
    assert_eq!(display_path(r"\\?\C:\Users\dev\project"), r"C:\Users\dev\project");
    assert_eq!(display_path(r"\\?\UNC\server\share\dir"), r"\\server\share\dir");
    assert_eq!(display_path("/home/dev/project"), "/home/dev/project");
}

#[test]
fn accumulate_usage_sums_output_and_keeps_the_last_input() {
    let mut total = Usage::default();
    accumulate_usage(
        &mut total,
        &Usage {
            prompt_tokens: 100,
            completion_tokens: 20,
            total_tokens: 120,
            cached_tokens: 10,
        },
    );
    accumulate_usage(
        &mut total,
        &Usage {
            prompt_tokens: 150,
            completion_tokens: 30,
            total_tokens: 180,
            cached_tokens: 40,
        },
    );

    assert_eq!(total.prompt_tokens, 150); // final round's context size
    assert_eq!(total.completion_tokens, 50); // output summed across rounds
    assert_eq!(total.total_tokens, 200); // last input + all output
    assert_eq!(total.cached_tokens, 40); // last round wins, like prompt_tokens
}

#[test]
fn cache_miss_label_stays_silent_on_first_turn_and_hits() {
    // No previous turn: never report.
    assert_eq!(cache_miss_label(None, 0, 5000, false, false), None);
    assert_eq!(cache_miss_label(None, 3000, 5000, false, false), None);
    // Same-prefix hit: cached holds steady.
    assert_eq!(cache_miss_label(Some(4000), 3950, 5000, false, false), None);
    // Previous turn too small to trust: noise, not a miss.
    assert_eq!(cache_miss_label(Some(500), 0, 5000, false, false), None);
}

#[test]
fn cache_miss_label_names_the_likely_cause() {
    // Fresh prefix after a cached turn: plain miss.
    assert_eq!(cache_miss_label(Some(4000), 0, 5000, false, false), Some("miss"));
    assert_eq!(
        cache_miss_label(Some(4000), 0, 5000, true, false),
        Some("miss (model switch)")
    );
    assert_eq!(
        cache_miss_label(Some(4000), 0, 5000, false, true),
        Some("miss (prefix rebuilt)")
    );
    // Partial drop within the noise floor: still a hit.
    assert_eq!(cache_miss_label(Some(4000), 3500, 5000, false, false), None);
}

#[test]
fn a_watch_remembers_the_request_before() {
    let usage = |cached: u64| Usage {
        prompt_tokens: 5000,
        completion_tokens: 1,
        total_tokens: 5001,
        cached_tokens: cached,
    };
    let mut watch = CacheWatch::new();
    assert_eq!(watch.observe(&usage(4000), "m"), None);
    assert_eq!(watch.observe(&usage(4000), "m"), None);
    watch.head_rebuilt = true;
    assert_eq!(watch.observe(&usage(0), "m"), Some("miss (prefix rebuilt)"));
    assert_eq!(watch.observe(&usage(4000), "m"), None);
    assert_eq!(watch.observe(&usage(0), "n"), Some("miss (model switch)"));
}

#[test]
fn format_duration_switches_units_at_one_second() {
    assert_eq!(format_duration(320), "320ms");
    assert_eq!(format_duration(999), "999ms");
    assert_eq!(format_duration(4200), "4.2s");
    assert_eq!(format_duration(1000), "1.0s");
}

#[test]
fn make_snippet_centers_on_the_match_without_ellipsis_when_short() {
    let snippet = make_snippet("the quick brown fox jumps", "brown");
    assert!(snippet.contains("brown"));
    assert!(!snippet.contains('…'));
}

#[test]
fn make_snippet_is_case_insensitive_and_normalizes_whitespace() {
    let snippet = make_snippet("Hello\n\n  WORLD   here", "world");
    assert!(snippet.contains("WORLD"));
    assert!(!snippet.contains('\n'));
}

#[test]
fn make_snippet_marks_truncation_with_an_ellipsis() {
    let mut content = "x ".repeat(60); // pushes the match past the leading window
    content.push_str("NEEDLE tail");
    let snippet = make_snippet(&content, "needle");
    assert!(snippet.starts_with('…'));
    assert!(snippet.contains("NEEDLE"));
}

fn options(list: &[&str]) -> Vec<String> {
    list.iter().map(|item| item.to_string()).collect()
}

#[test]
fn ask_user_rejects_a_blank_question() {
    let error = kamui::dialog::check_question("   ").unwrap_err();
    assert_eq!(error.message(), "ask_user requires a non-empty 'question' argument");
    assert!(kamui::dialog::check_question("When?").is_ok());
}

#[test]
fn ask_user_returns_free_text_when_no_options_are_offered() {
    assert_eq!(resolve_answer("Tuesday works better", &[]), "Tuesday works better");
}

#[test]
fn ask_user_resolves_a_numbered_choice_to_its_option_text() {
    assert_eq!(resolve_answer("2", &options(&["red", "green", "blue"])), "green");
    assert_eq!(resolve_answer(" +2\n", &options(&["red", "green", "blue"])), "green");
}

#[test]
fn ask_user_falls_back_to_raw_text_for_an_out_of_range_number() {
    assert_eq!(resolve_answer("99", &options(&["red", "green"])), "99");
    assert_eq!(resolve_answer("0", &options(&["red", "green"])), "0");
    let long = "99999999999999999999999999";
    assert_eq!(resolve_answer(long, &options(&["red", "green"])), long);
}

#[test]
fn ask_user_accepts_free_text_even_when_options_are_offered() {
    assert_eq!(resolve_answer("actually neither", &options(&["red", "green"])), "actually neither");
}

#[test]
fn a_question_numbers_its_options() {
    assert_eq!(
        question_text("Pick one", &options(&["red", "green"])),
        "  ? Pick one\n    1. red\n    2. green\n    > "
    );
}

#[test]
fn render_memory_snapshot_is_empty_with_no_entries() {
    assert_eq!(render_memory_snapshot(&[]), "");
}

#[test]
fn render_memory_snapshot_lists_every_fact() {
    let entries = vec![
        MemoryEntry { content: "Prefers bun over node.".to_owned() },
        MemoryEntry { content: "Prefers uv over pip.".to_owned() },
    ];

    let rendered = render_memory_snapshot(&entries);

    assert!(rendered.contains("Prefers bun over node."));
    assert!(rendered.contains("Prefers uv over pip."));
}

#[test]
fn head_messages_skip_empty_blocks() {
    let head = build_head_messages("base", None);
    assert_eq!(head.len(), 1);
    assert_eq!(head[0].content, "base");
    assert_eq!(
        build_head_messages("base", Some("")).len(),
        1,
        "a project with no skills adds no empty block"
    );
}

#[test]
fn head_messages_keep_blocks_separate() {
    let head = build_head_messages("base", Some("Skills:\n- review"));
    assert_eq!(head.len(), 2);
    assert_eq!(head[0].content, "base");
    assert!(head[1].content.contains("review"));
}

/// The merged contract: a remembered fact reaches the model on the next turn without moving
/// one byte of the head, because it rides behind the history rather than in front of it.
#[test]
fn remembering_something_leaves_the_frozen_head_alone() {
    let head = build_head_messages("base", Some("Skills:\n- review"));
    let text = |head: &[Message]| {
        head.iter().map(|message| message.content.clone()).collect::<Vec<_>>()
    };
    let before = text(&head);

    let history = [Message::user("q"), Message::assistant("a")];
    let turn = Turn::new(
        &head,
        &history,
        volatile_tail("Remembered facts:\n- bun\n- uv", None),
        Message::user("next"),
    )
    .messages;

    assert_eq!(text(&head), before, "the head is not rebuilt when memory changes");
    assert!(
        turn[turn.len() - 2].content.contains("uv"),
        "the new fact is in the tail, behind the history"
    );
    assert!(
        !turn[0].content.contains("uv") && !turn[1].content.contains("uv"),
        "and never in the head"
    );
}

#[test]
fn dispatch_memory_tool_remembers_a_fact() {
    let fact = remember("Prefers bun.", 0).unwrap();
    assert_eq!(fact, "Prefers bun.");
    let output = told_remembered(&fact);
    assert!(output.starts_with("remembered:"), "{output}");
}

#[test]
fn dispatch_memory_tool_rejects_a_blank_fact() {
    let output = report_memory(remember("  ", 0));
    assert!(output.starts_with("Error:"), "{output}");
}

#[test]
fn dispatch_memory_tool_refuses_once_the_memory_cap_is_reached() {
    let output = report_memory(remember("one more", MAX_MEMORY_BYTES));
    assert!(output.starts_with("Error:") && output.contains("full"), "{output}");
    assert!(remember("é", MAX_MEMORY_BYTES - 2).is_ok());
    assert!(remember("é", MAX_MEMORY_BYTES - 1).is_err());
    assert!(remember("x", u64::MAX).is_err());
}

#[test]
fn dispatch_memory_tool_updates_a_matched_fact() {
    let (matching, fact) = update("node over bun", "bun over node.").unwrap();
    let output = report_memory(told_updated(&matching, &fact, true));
    assert!(output.starts_with("updated memory"), "{output}");
    assert_eq!(fact, "bun over node.");
    let blank = report_memory(update(" ", "x").map(|pair| pair.0));
    assert!(blank.starts_with("Error: update_memory requires"), "{blank}");
}

#[test]
fn dispatch_memory_tool_update_reports_an_error_when_nothing_matches() {
    let output = report_memory(told_updated("nonexistent", "x", false));
    assert!(output.starts_with("Error:"), "{output}");
}

#[test]
fn dispatch_memory_tool_forgets_a_matched_fact() {
    let matching = forget("bun").unwrap();
    let output = report_memory(told_forgotten(&matching, true));
    assert!(output.starts_with("forgot"), "{output}");
    assert!(forget("  ").is_err());
}

#[test]
fn dispatch_memory_tool_forget_reports_an_error_when_nothing_matches() {
    let output = report_memory(told_forgotten("nonexistent", false));
    assert!(output.starts_with("Error:"), "{output}");
}

#[test]
fn snapshot_patch_target_keeps_the_pre_turn_content_on_repeated_edits() {
    let mut snapshot = Snapshot::new();
    let target = patch_target(
        "/root",
        r#"{"path":"a.txt","old_text":"original","new_text":"first edit"}"#,
        Ok("/root".to_string()),
        true,
    )
    .unwrap();
    snapshot.keep(&target, FileState::Text("original".to_string()));
    // A second, later call for the same path must not overwrite the pre-turn baseline.
    snapshot.keep(&target, FileState::Text("first edit".to_string()));

    assert_eq!(target, "/root/a.txt");
    assert_eq!(snapshot.files.get("/root/a.txt").unwrap().as_deref(), Some("original"));
}

#[test]
fn snapshot_patch_target_records_none_for_a_new_file() {
    let mut snapshot = Snapshot::new();
    let target = patch_target(
        "/root",
        r#"{"path":"new.txt","old_text":"","new_text":"hello"}"#,
        Ok("/root".to_string()),
        true,
    )
    .unwrap();
    snapshot.keep(&target, FileState::NotAFile);
    snapshot.keep("/root/binary", FileState::Unreadable);

    assert_eq!(snapshot.files.get("/root/new.txt"), Some(&None));
    assert!(snapshot.files.get("/root/binary").is_none());
    assert!(patch_target("/root", "not json", Ok("/root".to_string()), true).is_none());
}

#[test]
fn revert_snapshot_restores_edited_files_and_deletes_created_ones() {
    let mut snapshot = Snapshot::new();
    snapshot.keep("/root/edited.txt", FileState::Text("original".to_string()));
    snapshot.keep("/root/created.txt", FileState::NotAFile);

    let mut outcome = RevertOutcome::default();
    let plan = snapshot.plan();
    for item in &plan {
        outcome.record(&item.path, Ok(()));
    }

    assert_eq!(outcome.reverted.len(), 2);
    assert!(outcome.failed.is_empty());
    assert_eq!(plan[0].path, "/root/created.txt");
    assert_eq!(plan[0].original, None);
    assert_eq!(plan[1].path, "/root/edited.txt");
    assert_eq!(plan[1].original.as_deref(), Some("original"));
    // The report names the files, so you can see what came back rather than how many did.
    let summary = outcome.summary("from the last turn");
    assert!(summary.contains("edited.txt"), "{summary}");
    assert!(summary.contains("created.txt"), "{summary}");
    assert!(summary.contains("from the last turn"), "{summary}");
}

#[test]
fn files_are_brought_back_in_the_order_of_their_paths() {
    let mut snapshot = Snapshot::new();
    for path in ["/r/a-b/x", "/r/b", "/r/a/x", "/r/a"] {
        snapshot.keep(path, FileState::NotAFile);
    }
    let planned: Vec<String> = snapshot.plan().into_iter().map(|item| item.path).collect();
    let mut expected: Vec<std::path::PathBuf> =
        planned.iter().map(std::path::PathBuf::from).collect();
    expected.sort();
    let expected: Vec<String> =
        expected.iter().map(|path| path.display().to_string()).collect();
    assert_eq!(planned, expected);
    assert_eq!(planned, vec!["/r/a", "/r/a/x", "/r/a-b/x", "/r/b"]);
}

#[test]
fn revert_snapshot_treats_an_already_missing_file_as_reverted() {
    let mut outcome = RevertOutcome::default();
    outcome.record("/root/never-written.txt", removal(Err(RemoveFault::NotFound)));
    assert_eq!(outcome.reverted.len(), 1);
    assert!(removal(Ok(())).is_ok());
}

#[test]
fn a_file_that_will_not_revert_is_reported_not_swallowed() {
    let mut outcome = RevertOutcome::default();
    let cause = removal(Err(RemoveFault::Other("Is a directory".to_string())));
    outcome.record("/root/blocked", cause);

    assert!(outcome.reverted.is_empty());
    assert_eq!(outcome.failed.len(), 1);
    let summary = outcome.summary("from the last turn");
    assert!(summary.contains("Could not revert"), "{summary}");
    assert!(summary.contains("blocked"), "the file is named: {summary}");
}

#[test]
fn edited_files_are_named_once() {
    let mut edited = Vec::new();
    note_edit(&mut edited, "/r/a");
    note_edit(&mut edited, "/r/b");
    note_edit(&mut edited, "/r/a");
    assert_eq!(edited, vec!["/r/a", "/r/b"]);
}

#[test]
fn a_quiet_index_refresh_says_nothing() {
    assert!(index_refresh_message(Ok(0)).is_none());
}

#[test]
fn index_refresh_reports_work_and_failure_differently() {
    let (text, failed) = index_refresh_message(Ok(3)).expect("a message");
    assert!(text.contains("3 file(s)"), "{text}");
    assert!(!failed, "a successful refresh is not an error");

    let (text, failed) =
        index_refresh_message(Err("no embedding endpoint".to_string())).expect("a message");
    assert!(failed, "a failed refresh is an error, not a notice");
    assert!(text.contains("no embedding endpoint"), "the cause survives: {text}");
    assert!(text.contains("/index"), "and says how to recover: {text}");
}

#[test]
fn an_empty_revert_says_so_rather_than_claiming_success() {
    let outcome = RevertOutcome::default();
    assert!(outcome.is_empty());
    assert!(outcome.summary("from the last turn").starts_with("Nothing reverted"));
}

#[test]
fn is_memory_tool_recognizes_only_the_three_memory_tools() {
    assert!(is_memory_tool("remember"));
    assert!(is_memory_tool("update_memory"));
    assert!(is_memory_tool("forget"));
    assert!(!is_memory_tool("ask_user"));
    assert!(!is_memory_tool("run_command"));
}

fn stored(id: &str, title: &str) -> Session {
    let mut session = session_with_id(id.to_string(), "test", "m");
    session.title = title.to_string();
    session
}

#[test]
fn new_command_clears_always_allowed_and_undo_state() {
    let mut chat = Conversation::new(false);
    chat.messages.push(Message::user("hi"));
    assert_eq!(chat.gate.consent("run_command", Some("a")), Consent::Always);
    let mut snapshot = Snapshot::new();
    snapshot.keep("a.txt", FileState::Text("x".to_string()));
    chat.snapshot = Some(snapshot);

    let before = chat.mark();
    assert_eq!(chat.clear(), NEW_CHAT);
    chat.settle(&before, None);

    assert!(chat.session.is_none());
    assert!(chat.messages.is_empty());
    assert!(chat.gate.always_allowed.is_empty());
    assert!(chat.snapshot.is_none());
}

#[test]
fn delete_command_clears_state_when_deleting_the_active_session() {
    let mut chat = Conversation::new(false);
    chat.session = Some(stored("id-1", "New chat"));
    chat.messages.push(Message::user("hi"));
    chat.gate.consent("patch_file", Some("always"));
    chat.snapshot = Some(Snapshot::new());

    let other = chat.deleted(&stored("id-2", "Other"));
    assert_eq!(other, "Deleted: Other\n");
    assert!(chat.session.is_some());

    let before = chat.mark();
    let text = chat.deleted(&stored("id-1", "New chat"));
    chat.settle(&before, None);

    assert_eq!(text, format!("Deleted: New chat\n{NEW_CHAT}"));
    assert!(chat.session.is_none());
    assert!(chat.messages.is_empty());
    assert!(chat.gate.always_allowed.is_empty());
    assert!(chat.snapshot.is_none());
}

fn spawn(index: usize) -> ToolCall {
    ToolCall {
        id: format!("c{index}"),
        name: "spawn_agent".to_string(),
        arguments: format!(r#"{{"prompt":"task {index}"}}"#),
    }
}

#[test]
fn spawn_agents_run_concurrently_with_a_four_agent_cap() {
    let mut calls: Vec<ToolCall> = (0..6).map(spawn).collect();
    calls.insert(
        2,
        ToolCall { id: "r".to_string(), name: "read_file".to_string(), arguments: "{}".to_string() },
    );
    let spawned = spawn_calls(&calls);
    assert_eq!(spawned.len(), 6);
    assert_eq!(sub_agent_batches(spawned.len()), vec![(0, 4), (4, 6)]);
    assert_eq!(sub_agent_batches(0), vec![]);
    assert_eq!(sub_agent_batches(8), vec![(0, 4), (4, 8)]);

    let mut outputs = Vec::new();
    for (from, to) in sub_agent_batches(spawned.len()) {
        for call in &spawned[from..to] {
            outputs.push((call.id.clone(), format!("answer of {}", call.id)));
        }
    }
    assert_eq!(outputs.len(), 6);
    assert_eq!(spawned_output(&outputs, "c0"), "answer of c0");
    assert_eq!(spawned_output(&outputs, "c5"), "answer of c5");
    assert_eq!(spawned_output(&outputs, "r"), "Error: sub-agent result was missing");
    for index in 0..6 {
        assert_eq!(
            sub_agent_session_id(Some("parent"), &format!("c{index}")),
            Some(format!("parent:agent:c{index}"))
        );
    }
    assert_eq!(sub_agent_session_id(None, "c0"), None);
}

#[test]
fn spawn_agent_rejects_an_empty_prompt_without_calling_the_provider() {
    let error = begin_sub_agent("system", "   ").unwrap_err();
    let output = kamui::tools::report_outcome(Err(error));
    assert_eq!(output, "Error: spawn_agent requires a non-empty 'prompt' argument");
    let turn = begin_sub_agent("system", "look around").unwrap();
    assert_eq!(turn.messages.len(), 2);
    assert_eq!(turn.messages[1].content, "look around");
}

#[test]
fn refresh_re_embeds_an_indexed_file_that_changed() {
    let old = content_hash("fn old() {}");
    let new = content_hash("fn new() {}");
    assert_eq!(refresh_action(Some(&old), Some(&new), false), Refresh::Embed);
}

#[test]
fn refresh_skips_a_file_that_still_matches_the_index() {
    let hash = content_hash("fn a() {}");
    assert_eq!(refresh_action(Some(&hash), Some(&hash), true), Refresh::Keep);
    assert_eq!(
        refresh_action(Some(&hash), Some(&hash), false),
        Refresh::Embed,
        "the pieces of another model are of no use"
    );
}

#[test]
fn refresh_ignores_a_file_that_was_never_indexed() {
    let hash = content_hash("fn brand_new() {}");
    assert_eq!(refresh_action(None, Some(&hash), false), Refresh::Ignore);
}

#[test]
fn refresh_drops_the_index_entry_for_a_file_that_disappeared() {
    let hash = content_hash("fn gone() {}");
    assert_eq!(refresh_action(Some(&hash), None, false), Refresh::Drop);
}

#[test]
fn content_hash_is_stable_and_change_sensitive() {
    assert_eq!(content_hash("hello"), content_hash("hello"));
    assert_ne!(content_hash("hello"), content_hash("world"));
    assert_ne!(content_hash("hello"), "hello");
    let mut hasher = std::collections::hash_map::DefaultHasher::new();
    "hello".hash(&mut hasher);
    assert_eq!(content_hash("hello"), format!("{:x}", hasher.finish()));
}

#[test]
fn search_code_rejects_an_empty_query_without_calling_the_provider() {
    let error = check_search("   ", 5).unwrap_err();
    assert_eq!(error.message(), "search_code requires a non-empty 'query' argument");
    assert!(check_search("how does auth work", 5).is_ok());
}

#[test]
fn search_code_reports_a_missing_index_without_calling_the_provider() {
    let error = check_search("how does auth work", 0).unwrap_err();
    assert!(error.message().contains("no code index found"));
    assert!(format_hits(&[]).unwrap_err().message().contains("no code index found"));
}

#[test]
fn a_search_shows_the_best_hits() {
    let hit = |n: u64| CodeHit {
        path: format!("src/{n}.rs"),
        start_line: n,
        end_line: n + 4,
        score: "0.50".to_string(),
        content: "fn a() {}".to_string(),
    };
    let found = format_hits(&(1..=9).map(hit).collect::<Vec<_>>()).unwrap();
    assert!(found.starts_with("src/1.rs:1-5 (score=0.50)\nfn a() {}\n\nsrc/2.rs:2-6"), "{found}");
    assert_eq!(found.matches("score=").count(), 8);
    assert!(!found.contains("src/9.rs"), "{found}");
}

fn indexed(list: &[(&str, i64)]) -> Table<i64> {
    let mut table = Table::new();
    for (path, at) in list {
        table.insert(path.to_string(), *at);
    }
    table
}

#[test]
fn staleness_is_not_reported_for_an_unindexed_project() {
    assert_eq!(index_staleness(&indexed(&[]), &[("a.rs".to_string(), Some(1))]), None);
}

#[test]
fn staleness_counts_changed_new_and_removed_files() {
    let staleness = index_staleness(
        &indexed(&[("indexed.rs", 100), ("edited.rs", 100), ("gone.rs", 100)]),
        &[
            ("indexed.rs".to_string(), Some(100)),
            ("edited.rs".to_string(), Some(220)),
            ("new.rs".to_string(), Some(100)),
        ],
    )
    .unwrap();

    assert_eq!(staleness, IndexStaleness { changed: 1, added: 1, removed: 1 });
    assert!(!staleness.is_fresh());
    assert_eq!(staleness.describe(), "1 changed, 1 new, 1 removed");
}

#[test]
fn staleness_is_fresh_when_every_indexed_file_is_untouched() {
    let staleness = index_staleness(
        &indexed(&[("a.rs", 100), ("b.rs", 100)]),
        &[("a.rs".to_string(), Some(100)), ("b.rs".to_string(), None)],
    )
    .unwrap();

    assert!(staleness.is_fresh(), "{staleness:?}");
    assert_eq!(staleness.describe(), "");
}

#[test]
fn one_unindexable_file_does_not_abort_the_whole_index() {
    let mut run = IndexRun::new();
    run.see("bad.txt");
    assert!(run.fail("bad.txt", "input rejected by the embedding endpoint").is_ok());
    for path in ["good-one.txt", "good-two.txt"] {
        run.see(path);
        run.succeed(1);
    }
    let stored = Some((content_hash("text"), "embed-1".to_string()));
    assert!(matches!(run.meet("same.txt", &stored, "text", "embed-1"), Action::Skip));
    assert_eq!(run.gone(&["old.txt".to_string(), "bad.txt".to_string()]), vec!["old.txt"]);

    let summary = run.summary(1, 2);
    assert!(summary.contains("Indexed 2 file(s)"), "{summary}");
    assert!(summary.contains("Could not index 1"), "{summary}");
    assert!(summary.contains("bad.txt"), "the file is named: {summary}");
    assert!(summary.contains("skipped 1 unchanged, removed 1 deleted. 2 chunk(s) total."), "{summary}");
}

#[test]
fn a_file_is_skipped_only_as_it_was_indexed() {
    let mut run = IndexRun::new();
    let stored = Some((content_hash("text"), "embed-1".to_string()));
    match run.meet("a.txt", &stored, "other text", "embed-1") {
        Action::Embed { hash } => assert_eq!(hash, content_hash("other text")),
        Action::Skip => panic!("the text changed"),
    }
    assert!(matches!(run.meet("b.txt", &stored, "text", "embed-2"), Action::Embed { .. }));
    assert!(matches!(run.meet("c.txt", &None, "text", "embed-1"), Action::Embed { .. }));
    assert_eq!(run.skipped, 0);
    let known = Some(("ff".to_string(), "m".to_string()));
    assert!(matches!(run.meet_hashed("d.txt", &known, "ff".to_string(), "m"), Action::Skip));
    assert_eq!(run.skipped, 1);
    assert_eq!(run.seen, vec!["a.txt", "b.txt", "c.txt", "d.txt"]);
    assert!(is_current(&known, "ff", "m") && !is_current(&known, "fe", "m"));

    assert_eq!(refresh(&None, Some("text"), Some("embed-1")), Refresh::Ignore);
    assert_eq!(refresh(&stored, None, Some("embed-1")), Refresh::Drop);
    assert_eq!(refresh(&stored, Some("text"), Some("embed-1")), Refresh::Keep);
    assert_eq!(refresh(&stored, Some("text"), Some("embed-2")), Refresh::Embed);
    assert_eq!(refresh(&stored, Some("new"), Some("embed-1")), Refresh::Embed);
}

#[test]
fn refresh_does_nothing_without_an_embedding_model() {
    let stored = Some((content_hash("fn old() {}"), "embed-1".to_string()));
    assert_eq!(refresh(&stored, Some("fn new() {}"), None), Refresh::Ignore);
    assert_eq!(refresh(&stored, None, None), Refresh::Ignore);
}

#[test]
fn an_endpoint_that_refuses_everything_fails_instead_of_walking_the_project() {
    let mut run = IndexRun::new();
    assert!(run.fail("poison-1.txt", "no").is_ok());
    assert!(run.fail("poison-2.txt", "no").is_ok());
    let text = run.fail("poison-3.txt", "no").unwrap_err();
    assert!(text.contains("first 3 file(s)"), "it stops early: {text}");
}

#[test]
fn run_index_requires_an_embedding_model() {
    let error = embedding_model(&profile("default", "gpt-5", true)).unwrap_err();
    assert!(error.contains("embedding_model"));
    let mut active = profile("default", "gpt-5", true);
    active.embedding_model = Some("embed-1".to_string());
    assert_eq!(embedding_model(&active).unwrap(), "embed-1");
}

#[test]
fn embeddings_come_in_batches_of_one_vector_a_piece() {
    assert_eq!(embedding_batches(130), vec![(0, 64), (64, 128), (128, 130)]);
    assert!(check_batch(64, 64, "a.rs").is_ok());
    assert_eq!(
        check_batch(3, 64, "a.rs").unwrap_err(),
        "embedding provider returned 3 vector(s) for 64 chunk(s) in a.rs"
    );
}

// ---------------------------------------------------------------------------------------------
// Turns
// ---------------------------------------------------------------------------------------------

fn call(id: &str, name: &str) -> ToolCall {
    ToolCall { id: id.to_string(), name: name.to_string(), arguments: "{}".to_string() }
}

fn usage(input: u64, output: u64) -> Usage {
    Usage {
        prompt_tokens: input,
        completion_tokens: output,
        total_tokens: input + output,
        cached_tokens: 0,
    }
}

fn answer(output: &str) -> Answer {
    Answer { output: output.to_string(), visual: None }
}

#[test]
fn every_call_is_answered_before_anything_else_is_said() {
    let mut turn = Turn::new(&[], &[], Vec::new(), Message::user("go"));
    turn.next_round();
    assert!(matches!(turn.step(), Step::Send));
    let reply = turn.receive(
        "looking".to_string(),
        usage(10, 2),
        "tool_calls".to_string(),
        vec![call("c1", "read_image"), call("c2", "read_file")],
    );
    assert!(reply.is_none());
    turn.answer(vec![
        Answer {
            output: "[image attached]".to_string(),
            visual: Some(Message::user("the image")),
        },
        answer("text"),
    ]);
    let roles: Vec<&str> = turn.messages.iter().map(|message| message.role_name()).collect();
    assert_eq!(roles, vec!["user", "assistant", "tool", "tool", "user"]);
    assert_eq!(turn.messages[2].tool_call_id.as_deref(), Some("c1"));
    assert_eq!(turn.messages[3].tool_call_id.as_deref(), Some("c2"));
    assert_eq!(turn.messages[4].content, "the image");

    turn.next_round();
    let last = turn.receive("done".to_string(), usage(20, 3), "stop".to_string(), Vec::new());
    assert_eq!(last.unwrap().content, "done");
    assert_eq!(turn.usage.prompt_tokens, 20);
    assert_eq!(turn.usage.completion_tokens, 5);
    assert_eq!(turn.finish_reason, "stop");
    let record = turn.record(Message::user("go"), Message::assistant("done"));
    assert_eq!(record.len(), 6);
    assert_eq!(record[0].content, "go");
    assert_eq!(record[5].content, "done");
}

#[test]
fn a_turn_stops_after_so_many_rounds() {
    let mut turn = Turn::new(&[], &[], Vec::new(), Message::user("go"));
    for _ in 0..MAX_TOOL_ROUNDS {
        turn.next_round();
        assert!(matches!(turn.step(), Step::Send));
        assert!(turn.step_alone("").is_ok());
        turn.receive(String::new(), usage(1, 1), "tool_calls".to_string(), vec![call("c", "grep")]);
        turn.answer(vec![answer("")]);
    }
    turn.next_round();
    match turn.step() {
        Step::Stop(message) => {
            assert_eq!(message.content, "(stopped: reached the tool-call round limit)")
        }
        Step::Send => panic!("the limit holds"),
    }
    assert_eq!(
        turn.step_alone("sub-agent ").unwrap_err(),
        "sub-agent stopped after 25 tool rounds without a final answer"
    );
}

#[test]
fn the_output_of_every_reply_counts() {
    let mut turn = Turn::new(&[], &[], Vec::new(), Message::user("go"));
    turn.receive(String::new(), usage(5, 5), "x".to_string(), vec![call("c", "grep")]);
    turn.answer(vec![answer("")]);
    turn.receive("end".to_string(), usage(7, 1), "stop".to_string(), Vec::new());
    assert_eq!(turn.usage.completion_tokens, 6);
    assert_eq!(turn.usage.prompt_tokens, 7);
    assert_eq!(turn.usage.total_tokens, 13);
}

#[test]
fn what_is_typed_meanwhile_steers_the_turn() {
    let mut gate = Gate::new(false);
    assert!(gate.begin_turn("- one\n- two\n- three", true));
    let mut turn = Turn::new(&[], &[], Vec::new(), Message::user("go"));
    assert!(matches!(turn.steer(&mut gate, "  /stats"), Steering::Later));
    assert!(matches!(turn.steer(&mut gate, "use tabs"), Steering::Told));
    assert_eq!(turn.messages.last().unwrap().content, "use tabs");
    assert!(matches!(turn.steer(&mut gate, " Yes "), Steering::Approved));
    assert_eq!(gate.mode, Mode::Build);
    assert!(matches!(turn.steer(&mut gate, "yes"), Steering::Told));
}

#[test]
fn some_calls_are_answered_without_running() {
    assert!(answer_without_running(Decision::Held).unwrap().starts_with("Plan Mode is active"));
    assert!(answer_without_running(Decision::SearchUnavailable).unwrap().starts_with("Error: "));
    assert!(answer_without_running(Decision::NobodyToAsk).unwrap().contains("best judgment"));
    assert!(answer_without_running(Decision::Denied).unwrap().contains("declined"));
    assert!(answer_without_running(Decision::Run).is_none());
    assert!(visual_follows("read_image", "ok"));
    assert!(!visual_follows("read_image", "Error: no"));
    assert!(!visual_follows("read_file", "ok"));
}

#[test]
fn a_title_is_asked_for_with_the_exchange() {
    let messages = title_messages("question", "reply");
    assert_eq!(messages.len(), 3);
    assert!(messages[0].content.contains("at most 6 words"));
    assert_eq!(messages[1].content, "question");
    assert_eq!(messages[2].content, "reply");
}

// ---------------------------------------------------------------------------------------------
// Permission
// ---------------------------------------------------------------------------------------------

#[test]
fn a_pending_plan_holds_whatever_changes_something() {
    let mut gate = Gate::new(true);
    assert_eq!(gate.decide("patch_file", true, false), Decision::Run);
    assert!(gate.begin_turn("step 1\nstep 2\nstep 3", true));
    assert_eq!(gate.mode, Mode::Plan);
    assert!(!gate.auto_approve);
    assert_eq!(gate.decide("patch_file", true, false), Decision::Held);
    assert_eq!(gate.decide("read_file", false, false), Decision::Run);
    assert!(gate.take_plan("update_plan", r#"{"steps":[]}"#, true));
    assert_eq!(gate.plan_to_store().unwrap().1, "pending");
    assert!(!gate.answer_plan(Some("no")));
    assert!(!gate.answer_plan(None));
    assert!(gate.answer_plan(Some("approve")));
    assert_eq!(gate.decide("patch_file", true, false), Decision::Confirm);
    let stored = gate.plan_to_store().unwrap();
    assert_eq!(stored.1, "approved");

    let mut next = Gate::new(false);
    next.restore(Some(stored));
    assert_eq!(next.mode, Mode::Build);
    next.restore(Some(("{}".to_string(), "pending".to_string())));
    assert_eq!(next.mode, Mode::Plan);
    next.restore(Some(("{}".to_string(), "odd".to_string())));
    assert!(next.plan.is_none());
}

#[test]
fn the_model_can_propose_a_plan_of_its_own() {
    let mut gate = Gate::new(false);
    let calls = vec![call("a", "read_file"), call("b", "update_plan")];
    assert!(!gate.propose_among(&calls, &[None, Some(2)]));
    assert!(!gate.propose_among(&calls, &[Some(5), None]));
    assert!(gate.propose_among(&calls, &[None, Some(3)]));
    assert!(gate.is_pending());
    assert!(!gate.propose_among(&calls, &[None, Some(9)]), "there is a plan already");
}

#[test]
fn consent_can_be_given_once_or_for_good() {
    let mut gate = Gate::new(false);
    assert_eq!(gate.consent("run_command", Some(" y ")), Consent::Once);
    assert_eq!(gate.decide("run_command", true, false), Decision::Confirm);
    assert_eq!(gate.consent("run_command", Some("YES")), Consent::No);
    assert_eq!(gate.consent("run_command", None), Consent::No);
    assert_eq!(gate.consent("run_command", Some("Always")), Consent::Always);
    assert_eq!(gate.decide("run_command", true, false), Decision::Run);
    assert_eq!(gate.decide("patch_file", true, false), Decision::Confirm);
}

#[test]
fn where_nobody_is_there_nothing_is_asked() {
    assert_eq!(decide_alone("ask_user", false, true, true), Decision::NobodyToAsk);
    assert_eq!(decide_alone("run_command", true, false, true), Decision::Denied);
    assert_eq!(decide_alone("run_command", true, true, true), Decision::Run);
    assert_eq!(decide_alone("search_code", false, false, false), Decision::SearchUnavailable);
    assert_eq!(decide_alone("search_code", false, false, true), Decision::Search);
    assert_eq!(decide_alone("spawn_agent", false, false, true), Decision::SubAgent);
    assert_eq!(decide_alone("remember", false, false, true), Decision::Memory);
}

#[test]
fn changing_the_mode_drops_the_plan() {
    let mut gate = Gate::new(false);
    assert_eq!(gate.ask_mode(""), Some(false));
    assert_eq!(gate.ask_mode("yolo"), None);
    assert_eq!(gate.ask_mode(" prev "), Some(false));
    assert_eq!(gate.mode, Mode::Plan);
    assert!(gate.plan_requested);
    assert!(gate.begin_turn("anything", true));
    assert_eq!(gate.ask_mode("next"), Some(true));
    assert_eq!(gate.mode, Mode::Build);
    assert!(gate.plan.is_none());
    assert_eq!(gate.ask_mode("bypass"), Some(false));
    assert!(gate.auto_approve);
    gate.request_plan();
    assert!(!gate.auto_approve);
    assert!(!gate.begin_turn("anything", false), "without tools there is nothing to hold");
    assert!(looks_like_multi_step("1. a\n2. b\n3. c"));
    assert!(!looks_like_multi_step("1. a\n2. b"));
    assert!(is_plan_approval(" Approved\n"));
    assert!(!is_plan_approval("sure"));
}

// ---------------------------------------------------------------------------------------------
// Lines and commands
// ---------------------------------------------------------------------------------------------

#[test]
fn lines_are_told_apart() {
    assert!(matches!(read_input(" EXIT "), Line::Exit));
    assert!(matches!(read_input("/exit"), Line::Exit));
    assert!(matches!(read_input(" \t"), Line::Nothing));
    assert!(matches!(read_input("! "), Line::ShellUsage));
    match read_input("!  git status ") {
        Line::Shell(command) => assert_eq!(command, "git status"),
        _ => panic!("a shell command"),
    }
    match read_input(" hello there ") {
        Line::Text(input) => assert_eq!(input, "hello there"),
        _ => panic!("a prompt"),
    }
    assert_eq!(split_command("/model  x"), ("/model".to_string(), " x".to_string()));
    assert_eq!(split_command("/new"), ("/new".to_string(), String::new()));
    assert_eq!(resolve_builtin_command("/sess").unwrap(), "/sessions");
    assert!(resolve_builtin_command("/s").unwrap_err().message().contains("/search"));
}

#[test]
fn commands_find_who_takes_them_up() {
    assert_eq!(route("/model", "", true), Route::ModelPicker);
    assert_eq!(route("/model", "", false), Route::Profile);
    assert_eq!(route("/model", "__add__", true), Route::AddProvider);
    assert_eq!(route("/model", "__picked__ m", true), Route::PickedModel);
    assert_eq!(route("/model", "work", true), Route::Profile);
    assert_eq!(route("/resume", "", true), Route::SessionPicker);
    assert_eq!(route("/resume", "ab", true), Route::Session);
    assert_eq!(route("/warning", "", false), Route::Warnings);
    match parse_session_command("/rename", "  ab  A new title ").unwrap() {
        SessionCommand::Rename { id, title } => {
            assert_eq!(id, "ab");
            assert_eq!(title, "A new title");
        }
        _ => panic!("a rename"),
    }
    assert_eq!(
        parse_session_command("/rename", "ab").unwrap_err(),
        "usage: /rename <id> <new title>"
    );
    assert_eq!(parse_session_command("/search", " ").unwrap_err(), "usage: /search <text>");
    assert_eq!(
        parse_session_command("/forget", "").unwrap_err(),
        "usage: /forget <text> or /forget all"
    );
    assert!(matches!(parse_session_command("/forget", "ALL"), Ok(SessionCommand::ForgetAll)));
    assert!(unknown_command("/sesions").contains("Did you mean /sessions?"));
    assert!(unknown_command("/deploy").ends_with("Type /help for available commands.\n"));
    let mut out = String::new();
    print_help(&mut out);
    assert!(out.ends_with("/exit             Save and quit\n\n"), "{out}");
    assert!(out.starts_with("!<command>        Run a shell command directly"), "{out}");
    assert!(out.contains("\n/forget <text>    Forget one remembered fact, or /forget all\n"), "{out}");
    for command in builtins() {
        let start = format!("/{} ", command.name);
        assert!(out.lines().any(|line| line.starts_with(&start)), "no line for {start}");
    }
}

#[test]
fn sessions_are_resumed_under_their_own_provider() {
    let found = session_to_resume("id", Some(stored("id-1", "t")), "test").unwrap();
    assert_eq!(found.id, "id-1");
    assert_eq!(session_to_resume("", None, "test").unwrap_err().message(), "a session ID is required");
    assert_eq!(
        session_to_resume("zz", None, "test").unwrap_err().message(),
        "session 'zz' was not found or is ambiguous"
    );
    assert_eq!(
        session_to_resume("id", Some(stored("id-1", "t")), "openai").unwrap_err().message(),
        "session uses provider 'test', but 'openai' is active"
    );
}

#[test]
fn another_session_brings_its_own_plan_and_history() {
    let mut chat = Conversation::new(true);
    chat.messages = vec![Message::user("a"), Message::assistant("b")];
    assert_eq!(chat.compact(" sum ", 1), 1);
    assert_eq!(chat.summary.as_deref(), Some("sum"));
    assert_eq!(chat.recent().len(), 1);

    let before = chat.mark();
    let text = chat.resume(stored("0123456789", "Old"), vec![Message::user("x")]);
    assert_eq!(text, "Resumed: Old (01234567)\n");
    chat.settle(&before, Some(("{}".to_string(), "pending".to_string())));
    assert_eq!(chat.gate.mode, Mode::Plan);
    assert!(!chat.gate.auto_approve);
    assert!(chat.summary.is_none());
    assert_eq!(chat.recent().len(), 1);
    assert!(chat.stale.tools && chat.stale.head && chat.stale.memory);

    let renamed = chat.renamed(&stored("0123456789", "Old"), "New name");
    assert_eq!(renamed, "Renamed 01234567 to: New name\n");
    assert_eq!(chat.session.as_ref().unwrap().title, "New name");
}

#[test]
fn no_summary_follows_into_another_session() {
    let mut chat = Conversation::new(true);
    chat.messages = vec![Message::user("a"), Message::assistant("b")];
    chat.compact("sum", 2);
    let before = chat.mark();
    // As many messages as before, but those of another session.
    chat.resume(
        stored("0123456789", "Old"),
        vec![Message::user("x"), Message::assistant("y")],
    );
    chat.settle(&before, None);
    assert!(chat.summary.is_none());
    assert_eq!(chat.recent().len(), 2);

    chat.compact("sum of the second", 1);
    let before = chat.mark();
    chat.settle(&before, None);
    assert_eq!(chat.summary.as_deref(), Some("sum of the second"));
    assert_eq!(chat.recent().len(), 1);
}

#[test]
fn history_is_summed_up_once_it_outgrows_the_threshold() {
    let mut chat = Conversation::new(true);
    chat.messages =
        vec![Message::user("a"), Message::assistant("b"), Message::user("c"), Message::user("d")];
    let small = Trigger::Automatic { bytes: 100, threshold: 100 };
    let large = Trigger::Automatic { bytes: 101, threshold: 100 };
    assert_eq!(chat.compaction(small, Some(2)), CompactionStep::Nothing);
    assert_eq!(chat.compaction(large, None), CompactionStep::Nothing);
    assert_eq!(chat.compaction(large, Some(2)), CompactionStep::Ask { upto: 2 });
    assert_eq!(chat.compaction(Trigger::Command, Some(2)), CompactionStep::Ask { upto: 2 });
    assert_eq!(chat.compaction(Trigger::Command, None), CompactionStep::TooShort);
    assert_eq!(chat.folding(2).len(), 2);

    let failed = chat.fold(large, 2, Err("no route"), false, true).unwrap_err();
    assert_eq!(failed, "Could not compact history: no route");
    let failed = chat.fold(large, 2, Err("no route"), false, false).unwrap_err();
    assert_eq!(failed, "(could not compact history: no route)\n");
    let failed = chat.fold(Trigger::Command, 2, Err("no route"), false, true).unwrap_err();
    assert_eq!(failed, "Compaction failed: no route");
    let failed = chat.fold(Trigger::Command, 2, Err("no route"), false, false).unwrap_err();
    assert_eq!(failed, "Compaction failed: no route\n");
    assert!(chat.summary.is_none());
    assert_eq!(chat.recent().len(), 4);

    let note = chat.fold(large, 2, Ok(" they spoke\n"), false, true).unwrap();
    assert_eq!(note, "Compacted 2 earlier messages into a running summary.");
    assert_eq!(chat.summary.as_deref(), Some("they spoke"));
    assert_eq!(chat.recent().len(), 2);
    assert_eq!(chat.messages.len(), 4);
    let note = chat.fold(Trigger::Command, 3, Ok("more"), true, true).unwrap();
    assert!(note.starts_with("Compacted 1 earlier messages into the summary."), "{note}");
    assert!(note.ends_with("warms up again."), "{note}");
}

#[test]
fn a_finished_turn_is_kept_and_names_the_session() {
    let mut chat = Conversation::new(false);
    assert!(chat.ensure_session(true, "openai", "m"));
    assert!(!chat.ensure_session(true, "openai", "m"));
    assert_eq!(chat.session.as_ref().unwrap().title, "New chat");
    assert_eq!(chat.session.as_ref().unwrap().id.len(), 36);
    let mut snapshot = Snapshot::new();
    snapshot.keep("/r/a", FileState::NotAFile);
    chat.finish_turn(
        vec![Message::user("hello"), Message::assistant("hi")],
        snapshot,
        "hello",
    );
    assert_eq!(chat.session.as_ref().unwrap().title, "hello");
    assert_eq!(chat.messages.len(), 2);
    assert!(chat.snapshot.is_some());
    chat.finish_turn(Vec::new(), Snapshot::new(), "other");
    assert_eq!(chat.session.as_ref().unwrap().title, "hello");
    assert!(chat.snapshot.is_none());
}

fn two_profiles() -> Config {
    Config {
        profiles: vec![profile("a", "m", true), profile("b", "n", false)],
        default_profile: "a".to_string(),
        mcp_servers: Vec::new(),
        allow_commands: Vec::new(),
        command_timeout_secs: 30,
        background_max_secs: 1800,
        prices: prices(None),
        theme: Theme::Default,
    }
}

#[test]
fn a_run_begins_with_what_was_used_last() {
    let config = two_profiles();
    assert_eq!(choose_profile(&config, Some("b")).name, "b");
    assert_eq!(choose_profile(&config, Some("gone")).name, "a");
    assert_eq!(choose_profile(&config, None).name, "a");
    assert_eq!(choose_theme(Theme::Default, Some("ayu-dark")), Theme::AyuDark);
    assert_eq!(choose_theme(Theme::Default, Some("neon")), Theme::Default);
    let items = model_dialog_items(&config);
    assert_eq!(items[1], ("b".to_string(), "b · n".to_string()));
    assert_eq!(items[2].0, "__add__");
    assert_eq!(switch_note(&config, "a"), "Now using m (a).\n");
    assert!(switch_note(&config, "b").contains("tools = false"));
    assert!(switch_note(&config, "c").starts_with("Unknown profile 'c'."));
    let rows = kamui::dialog::profile_rows(&config, "b");
    assert_eq!(rows[0], "Profiles:");
    assert_eq!(rows[2], "* b                n                      http://localhost  [no tools]");
    assert!(theme_list(Theme::AyuDark).contains("\n* ayu-dark\n  ayuppuccin\n"));
    assert_eq!(provider_base(" https://x/v1// \n"), "https://x/v1");
    assert_eq!(provider_base(" / "), "https://api.openai.com/v1");
}

#[test]
fn servers_are_listed_switched_and_marked() {
    let mut statuses = vec![
        status("a", 2, true, None),
        status("b", 0, false, Some("spawn failed")),
    ];
    match mcp_command("apply a:off junk b:ON", true) {
        McpCommand::Apply(marks) => {
            assert_eq!(marks, vec![("a".to_string(), false), ("b".to_string(), true)])
        }
        _ => panic!("marks"),
    }
    assert!(matches!(mcp_command("toggle a", true), McpCommand::Toggle(name) if name == "a"));
    assert!(matches!(mcp_command("", true), McpCommand::Picker));
    assert!(matches!(mcp_command("", false), McpCommand::List));
    assert_eq!(server_enabled(&[], "a").unwrap_err(), "no MCP server named 'a'");
    let listing = print_mcp(&statuses, 9);
    assert!(listing.contains("  - a  2 tool(s) · trusted\n"), "{listing}");
    assert!(listing.contains("  - b  unavailable\n      spawn failed\n"), "{listing}");
    assert!(listing.ends_with("\nTotal MCP tools: 2\n"), "{listing}");
    mirror_enabled(&mut statuses, "a", false);
    assert!(statuses[0].disabled);
    assert!(print_mcp(&statuses, 9).contains("  - a  disabled (run /mcp toggle a)\n"));
    assert!(print_mcp(&[], 9).contains("No MCP servers configured."));
    let items = kamui::dialog::mcp_dialog_items(&statuses);
    assert_eq!(items[0].1, "disabled · 2 tool(s)");
    assert_eq!(items[1].1, "unavailable · 0 tool(s)");
}

#[test]
fn the_status_names_what_a_run_works_with() {
    let facts = StatusFacts {
        version: "1.2.3".to_string(),
        project: "kamui".to_string(),
        root: "/home/dev/kamui".to_string(),
        git: read_git_status(Some("main"), None, Some("")),
        tools: 4,
        allow_commands: vec!["git status".to_string()],
        rules: Some("KAMUI.md".to_string()),
    };
    let text = print_status(&facts, &profile("a", "m", true), &[status("s", 3, true, None)]);
    assert!(text.contains("│ Project  kamui  (/home/dev/kamui)\n"), "{text}");
    assert!(text.contains("│ Git      main  ·  0 changed\n"), "{text}");
    assert!(text.contains("│ Model    m  (a)\n│ Tools    4 available\n│ Allow    git status\n"), "{text}");
    assert!(text.contains("│ MCP      s  connected · 3 tools · trusted\n│ Rules    KAMUI.md\n"), "{text}");
}

#[test]
fn skills_are_listed_switched_and_repaired() {
    let entry = SkillEntry {
        name: "review".to_string(),
        description: "x".repeat(70),
        badge: "project".to_string(),
        allowed_tools: Some("grep".to_string()),
    };
    let mut out = String::new();
    print_skills(&[entry], &["odd".to_string()], &["review".to_string()], 200, &mut out);
    assert!(out.contains("  [disabled] /review             project            xxx"), "{out}");
    assert!(out.contains("… [tools: grep]\n"), "{out}");
    assert!(out.contains("\nWarnings (invalid skills skipped):\n  - odd\n"), "{out}");
    let mut out = String::new();
    print_skills(&[], &["odd".to_string()], &[], 80, &mut out);
    assert!(out.ends_with("  warning: odd\n\n"), "{out}");

    let skills = vec![Skill { name: "review".to_string(), description: "d".to_string() }];
    assert!(matches!(
        skills_action("toggle review", &skills, &[]),
        SkillsAction::Toggle { disable: true, .. }
    ));
    assert!(matches!(skills_action("toggle nope", &skills, &[]), SkillsAction::NoSuch(_)));
    assert!(matches!(skills_action("", &skills, &[]), SkillsAction::Show));

    assert!(matches!(warnings_action("", &[]), WarningsAction::Toggle));
    assert!(matches!(warnings_action("Expand", &[]), WarningsAction::Details));
    assert!(matches!(warnings_action("collapse", &[]), WarningsAction::Collapse));
    assert!(matches!(warnings_action("fix", &[]), WarningsAction::NothingToFix));
    match warnings_action("fix", &["one".to_string(), "two".to_string()]) {
        WarningsAction::Fix(prompt) => assert!(prompt.contains("folders:\n- one\n- two\n\n")),
        _ => panic!("a repair"),
    }
    assert!(matches!(warnings_action("what", &[]), WarningsAction::Usage(_)));

    let mut out = String::new();
    print_commands(
        &[CustomCommand {
            name: "review".to_string(),
            description: None,
            source: "project".to_string(),
        }],
        &mut out,
    );
    assert!(out.starts_with("Your commands:\n  /review             project   \n"), "{out}");
}

#[test]
fn a_resumed_conversation_shows_its_end() {
    assert_eq!(print_history_preview(&[]), "No previous messages.\n\n");
    let mut messages: Vec<Message> = (0..6).map(|n| Message::user(&format!("m{n}"))).collect();
    messages.push(Message::tool_request("", vec![call("a", "grep"), call("b", "glob")]));
    let text = print_history_preview(&messages);
    assert!(text.starts_with("... 1 earlier messages omitted\n\nYou:\nm1\n\n"), "{text}");
    assert!(text.contains("Assistant:\n(requested tools: grep, glob)\n\n"), "{text}");
    assert!(text.ends_with("--- End of history ---\n\n"), "{text}");
}

// ---------------------------------------------------------------------------------------------
// The sidebar
// ---------------------------------------------------------------------------------------------

fn request() -> RequestFacts {
    RequestFacts {
        cache_pinned: false,
        finish_reason: "stop".to_string(),
        first_token: Some(320),
        elapsed: 4200,
        has_window: true,
        hit: Some("50".to_string()),
        context: "12.5".to_string(),
    }
}

#[test]
fn a_request_says_what_it_used() {
    let half = Usage {
        prompt_tokens: 100,
        completion_tokens: 20,
        total_tokens: 120,
        cached_tokens: 50,
    };
    assert_eq!(
        format_usage(&half, &request(), None),
        "Tokens: 100 input + 20 output = 120 total | Cached: 50 (50%) | Context: 12.5% | TTFT: 320ms | Time: 4.2s | Finish: stop"
    );
    let none = usage(100, 20);
    assert!(format_usage(&none, &request(), Some("miss")).contains(" | Cache miss | "));
    let pinned = RequestFacts { cache_pinned: true, first_token: None, has_window: false, ..request() };
    assert!(format_usage(&none, &pinned, None).contains(" total | Cached: 0 (warm-up) | Time: "));
    assert_eq!(
        last_turn(&half, &request(), None),
        "tok\t120\nin\t100\ncache\t50 (50%)\nlat\t320ms\ntime\t4.2s"
    );
    assert_eq!(activity(3, &request()), "tools\t3\nlat\t320ms\ntime\t4.2s");
}

#[test]
fn the_sidebar_groups_what_it_shows() {
    let runtime = RuntimeFacts {
        model: "m".to_string(),
        mode: "build".to_string(),
        version: "1.0".to_string(),
        git: read_git_status(Some("main"), None, Some(" M a\n")),
        root: "/p".to_string(),
        mcp: String::new(),
    };
    let tokens = TokenFacts {
        last_input: Some(1500),
        last_cached: Some(0),
        window: Some(3000),
        cache_pinned: true,
        session_cache: None,
        context: "50.0".to_string(),
        bar: 50,
        hit: String::new(),
        thousands: "1.5".to_string(),
    };
    let entries = sidebar_entries(None, &runtime, &tokens, Some("tools\t1".to_string()), None);
    assert_eq!(entries[0], ("Session".to_string(), "New chat\nversion\tv1.0".to_string()));
    assert_eq!(
        entries[1].1,
        "model\tm\nmode\tbuild\ngit\tmain · 1 changed\nproject\t/p"
    );
    assert_eq!(entries[2].1, "1500 tokens (50.0% of 3000)\nbar\t50\ncache\t0 (warm-up)");
    assert_eq!(entries[3].0, "Activity");
    assert_eq!(token_badge(&tokens), Some(("1.5k tok · warm".to_string(), 50)));
    let mut list = vec![("A".to_string(), "1".to_string())];
    entries_push(&mut list, "A", "2".to_string());
    entries_push(&mut list, "B", "3".to_string());
    assert_eq!(list[0].1, "1\n2");
    assert_eq!(list[1].0, "B");
}

#[test]
fn a_session_ends_with_how_to_resume_it() {
    assert_eq!(farewell(None, None), "Goodbye\n");
    assert_eq!(
        farewell(Some("stats\n"), Some("0123456789")),
        "stats\nTo resume this session: kamui -r 01234567\nGoodbye\n"
    );
    assert_eq!(tool_body("Error: no"), "no");
    assert_eq!(tool_body("fine"), "fine");
    let error: ToolError<String> = ToolError::Failed { cause: "x".to_string() };
    assert_eq!(error.message(), "x");
}

#[test]
fn only_what_was_said_is_replayed() {
    let call = ToolCall {
        id: "c1".to_string(),
        name: "read_file".to_string(),
        arguments: "{}".to_string(),
    };
    let mut messages = vec![Message::user("first"), Message::assistant("gone")];
    messages.push(Message::user("look"));
    messages.push(Message::tool_request("", vec![call]));
    messages.push(Message::tool_result("c1", "a file"));
    messages.push(Message::assistant("seen"));
    let (note, lines) = replay_tui_history(&messages);
    assert!(note.is_none());
    assert_eq!(lines.len(), 4);
    assert!(matches!(lines[2].0, Role::User));
    assert_eq!(lines[2].1, "look");
    assert!(matches!(lines[3].0, Role::Assistant));
    assert_eq!(lines[3].1, "seen");

    for _ in 0..6 {
        messages.push(Message::user("more"));
    }
    let (note, lines) = replay_tui_history(&messages);
    assert_eq!(note.unwrap(), "2 earlier message(s) not replayed \u{2014} still in context");
    assert_eq!(lines.len(), 8);
    assert_eq!(lines[0].1, "look");
}

#[test]
fn notes_say_what_was_done() {
    assert_eq!(
        mcp_applied_note(2, None),
        ("MCP config updated \u{2014} restart kamui to apply.".to_string(), false)
    );
    assert_eq!(
        mcp_applied_note(2, Some("no file")),
        ("MCP config updated (2 changed), but: no file".to_string(), true)
    );
    assert_eq!(
        mcp_toggled_note("docs", false, "docs\n"),
        "docs is now disabled.\nRestart kamui to apply.\n\ndocs\n"
    );
    assert_eq!(no_matches("x"), "No messages matched \"x\".\n");
    assert_eq!(forgot_all(3), "Forgot all 3 remembered fact(s).\n");
    assert_eq!(
        status_line("/work", "m", 5, 1),
        "Project: /work · Model: m · Tools: 5 · MCP: 1"
    );
    let profile = added_profile("home", "https://x/v1", "key", "m");
    assert_eq!(profile.name, "home");
    assert!(profile.tools);
    assert!(profile.context_window.is_none());
    let figures = CacheFigures {
        median: "91".to_string(),
        measured: 7,
        most: "57".to_string(),
        nearly_all: "14".to_string(),
        warmup: 1,
    };
    assert_eq!(session_cache_line(&figures), "median 91% · 7 turns · \u{2265}90% 57%");
}

#[test]
fn images_of_tools_follow_as_messages() {
    let shown = visual_message("c7", "cat.png", image("image/png", 3));
    assert_eq!(shown.content, "Visual input returned by read_image tool call c7:\ncat.png");
    assert_eq!(shown.images.len(), 1);
    let failed = failed_visual("no such file");
    assert_eq!(failed.content, "Image attachment failed: no such file");
    assert!(failed.images.is_empty());
}

#[test]
fn code_search_is_offered_with_an_embedding_model() {
    let named = |name: &str| ToolDefinition {
        name: name.to_string(),
        description: String::new(),
        parameters: "{}".to_string(),
    };
    let all = offered_tools(true, vec![named("read_file")], true, named("search_code"));
    assert_eq!(all.len(), 2);
    assert_eq!(all[1].name, "search_code");
    assert_eq!(offered_tools(true, vec![named("read_file")], false, named("search_code")).len(), 1);
    assert!(offered_tools(false, vec![named("read_file")], true, named("search_code")).is_empty());
}

#[test]
fn a_plan_is_taken_up_at_the_start_where_its_status_is_known() {
    let mut gate = Gate::new(true);
    gate.restore_at_start(Some(("{}".to_string(), "unheard-of".to_string())));
    assert!(gate.plan.is_none());
    assert!(gate.auto_approve);
    gate.restore_at_start(Some(("{}".to_string(), "pending".to_string())));
    let plan = gate.plan.unwrap();
    assert!(matches!(plan.status, PlanStatus::Pending));
    assert_eq!(plan.plan_json.unwrap(), "{}");
    assert!(!gate.auto_approve);
}

fn server(name: &str) -> McpServer {
    McpServer {
        name: name.to_string(),
        command: "run".to_string(),
        args: Vec::new(),
        trusted: false,
        env: Table::new(),
        url: None,
        headers: Table::new(),
        enabled: true,
    }
}

#[test]
fn a_server_flipped_twice_is_as_it_was() {
    let mut servers = vec![server("docs"), server("web")];
    let mut statuses = vec![status("docs", 1, false, None), status("web", 1, false, None)];
    assert_eq!(toggle_mcp(&mut servers, &mut statuses, "web"), Ok(false));
    assert!(servers[0].enabled && !servers[1].enabled);
    assert!(!statuses[0].disabled && statuses[1].disabled);
    assert_eq!(toggle_mcp(&mut servers, &mut statuses, "web"), Ok(true));
    assert!(servers[1].enabled && !statuses[1].disabled);
    assert_eq!(
        toggle_mcp(&mut servers, &mut statuses, "none").unwrap_err(),
        "no MCP server named 'none'"
    );
    assert_eq!(switch_server(&mut servers, &mut statuses, "docs", false), Ok(()));
    assert!(!servers[0].enabled && statuses[0].disabled);
}
