use kamui::tui::{
    builtins, filter_candidates, is_builtin_command, slash_candidates, truncate_chars,
    truncate_left_chars, Candidate, CustomCommand, Skill,
};

fn candidates() -> Vec<Candidate> {
    let mut out: Vec<Candidate> = [
        ("help", "Show help"),
        ("exit", "Quit"),
        ("review", "Review code"),
        ("my-skill", "Does stuff"),
    ]
    .iter()
    .map(|(name, about)| Candidate { name: name.to_string(), description: about.to_string() })
    .collect();
    out.sort_by(|a, b| a.name.cmp(&b.name));
    out
}

#[test]
fn every_advertised_command_is_reserved() {
    // A user command file or skill folder named after a built-in would shadow it, because
    // expansion runs before built-in dispatch. Two stale hand-written copies of this list
    // is how /plan, /expand, /collapse, and /mode became shadowable.
    for command in builtins() {
        let name = command.name;
        assert!(is_builtin_command(&name), "/{name} is offered but not reserved");
    }
    assert!(is_builtin_command("MODE"), "case is not an escape hatch");
    assert!(is_builtin_command(" plan "), "nor is surrounding space");
    assert!(is_builtin_command("models"), "unadvertised aliases count too");
    assert!(!is_builtin_command("review"), "ordinary names stay available");
    assert!(!is_builtin_command(""), "an empty name is not a command");
}

#[test]
fn slash_prefix_returns_all() {
    let all = candidates();
    assert_eq!(filter_candidates(&all, "").len(), 4);
    // Sorted by name: exit, help, my-skill, review
    assert_eq!(all[0].name, "exit");
    assert_eq!(all[3].name, "review");
}

#[test]
fn filtering_is_case_insensitive_and_prefix_only() {
    let all = candidates();
    let hits = filter_candidates(&all, "he");
    assert_eq!(hits.len(), 1);
    assert_eq!(hits[0].name, "help");
    assert_eq!(filter_candidates(&all, "HE").len(), 1);
    assert!(filter_candidates(&all, "elp").is_empty());
}

#[test]
fn truncate_is_char_safe() {
    assert_eq!(truncate_chars("\u{754c}\u{754c}\u{754c}", 2).chars().count(), 2);
    assert_eq!(truncate_chars("abc", 5), "abc");
}

#[test]
fn truncate_left_keeps_the_path_leaf() {
    let path = "/Users/ericjulianto/Documents/GitHub/kamui";
    let short = truncate_left_chars(path, 18);
    assert!(short.starts_with('\u{2026}'), "{short}");
    assert!(short.ends_with("kamui"), "{short}");
    assert_eq!(short.chars().count(), 18);
    assert_eq!(truncate_left_chars("short", 18), "short");
    assert_eq!(truncate_left_chars("abcdef", 1), "\u{2026}");
}

#[test]
fn the_slash_menu_lists_commands_and_enabled_skills_by_name() {
    let commands = [CustomCommand {
        name: "aaa".to_string(),
        description: Some("first".to_string()),
        source: "project".to_string(),
    }];
    let skills = [
        Skill { name: "zeta".to_string(), description: "last".to_string() },
        Skill { name: "off".to_string(), description: "hidden".to_string() },
    ];
    let menu = slash_candidates(&commands, &skills, &["off".to_string()]);
    assert_eq!(menu.len(), builtins().len() + 2);
    assert_eq!(menu[0].name, "aaa");
    assert_eq!(menu[menu.len() - 1].name, "zeta");
    assert!(menu.iter().all(|candidate| candidate.name != "off"));
    assert!(menu.windows(2).all(|pair| pair[0].name <= pair[1].name));
}
