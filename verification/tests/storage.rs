use kamui::provider::{ImageAttachment, Message, ToolCall, Usage};
use kamui::storage::{
    create_session, due_migrations, find_session, load_messages, save_exchange, save_turn, session_with_id,
    title_after_exchange, usage_row, MessageRow, TokenOverflow, NEW_TITLE,
};

fn row(role: &str, content: &str) -> MessageRow {
    MessageRow {
        role: role.to_string(),
        content: content.to_string(),
        tool_calls: Vec::new(),
        tool_call_id: None,
        images: Vec::new(),
    }
}

#[test]
fn persists_session_messages_and_usage() {
    let session = create_session("test", "model");
    let exchange = save_exchange(
        &session.title,
        &Message::user("Explain Rust ownership"),
        &Message::assistant("Ownership tracks values."),
        &Usage { prompt_tokens: 10, completion_tokens: 5, total_tokens: 15, cached_tokens: 0 },
    )
    .unwrap();

    let messages = load_messages(vec![
        row(exchange.user_role, &exchange.user_content),
        row(exchange.assistant_role, &exchange.assistant_content),
    ])
    .unwrap();

    assert_eq!(messages.len(), 2);
    assert_eq!(messages[0].content, "Explain Rust ownership");
    assert_eq!(messages[1].role_name(), "assistant");
    assert_eq!(exchange.usage.total_tokens, 15);
    assert_eq!(exchange.usage.input_tokens, 10);
    assert_eq!(exchange.title, "Explain Rust ownership");
}

#[test]
fn sessions_are_told_apart_by_random_ids() {
    let first = create_session("test", "model");
    let second = create_session("test", "model");
    assert_ne!(first.id, second.id);
    assert_eq!(first.id.len(), 36);
    assert!(b"89ab".contains(&first.id.as_bytes()[19]), "{}", first.id);
    assert_eq!(&first.id[8..9], "-");
    assert_eq!(&first.id[13..15], "-4");
    assert_eq!(first.id.chars().filter(|c| c.is_ascii_hexdigit()).count(), 32);
    assert_eq!(first.title, NEW_TITLE);
    assert_eq!(first.provider, "test");
}

#[test]
fn a_prefix_finds_a_session_only_where_it_is_unique() {
    let session = |id: &str| session_with_id(id.to_string(), "p", "m");
    assert!(find_session(Vec::new()).is_none());
    assert_eq!(find_session(vec![session("a")]).unwrap().id, "a");
    assert!(find_session(vec![session("a1"), session("a2")]).is_none());
}

#[test]
fn only_a_new_session_takes_its_title_from_the_prompt() {
    assert_eq!(title_after_exchange(NEW_TITLE, "hello"), "hello");
    assert_eq!(title_after_exchange("Mine", "hello"), "Mine");
}

#[test]
fn counts_must_fit_the_database() {
    let usage = |input: u64, output: u64, total: u64| Usage {
        prompt_tokens: input,
        completion_tokens: output,
        total_tokens: total,
        cached_tokens: 0,
    };
    assert!(usage_row(&usage(1, 2, 3)).is_ok());
    assert!(matches!(usage_row(&usage(u64::MAX, 0, 0)), Err(TokenOverflow::Input)));
    assert!(matches!(usage_row(&usage(0, u64::MAX, 0)), Err(TokenOverflow::Output)));
    assert!(matches!(usage_row(&usage(0, 0, 1 << 63)), Err(TokenOverflow::Total)));
    assert_eq!(TokenOverflow::Input.message(), "input token count overflow");
    assert_eq!(TokenOverflow::Output.message(), "output token count overflow");
    assert_eq!(TokenOverflow::Total.message(), "total token count overflow");
}

#[test]
fn stored_roles_must_be_known() {
    let error = load_messages(vec![row("user", "a"), row("robot", "b")]).unwrap_err();
    assert_eq!(error.message(), "unknown message role: robot");
    let known = load_messages(vec![row("system", "a"), row("assistant", "b")]).unwrap();
    assert_eq!(known[0].role_name(), "system");
}

#[test]
fn databases_are_brought_up_to_date() {
    assert_eq!(due_migrations(0), vec![1, 2]);
    assert_eq!(due_migrations(1), vec![2]);
    assert!(due_migrations(2).is_empty());
    assert!(due_migrations(9).is_empty());
}

#[test]
fn whole_turns_are_stored_and_read_back() {
    let call = ToolCall {
        id: "c1".to_string(),
        name: "read_image".to_string(),
        arguments: "{\"path\":\"cat.png\"}".to_string(),
    };
    let image = ImageAttachment {
        media_type: "image/png".to_string(),
        data: "QUJD".to_string(),
    };
    let turn = vec![
        Message::user("What is in cat.png?"),
        Message::tool_request("", vec![call]),
        Message::tool_result("c1", "cat.png, 3 bytes"),
        Message::user_with_images("the image", vec![image]),
        Message::assistant("A cat."),
    ];
    let usage =
        Usage { prompt_tokens: 10, completion_tokens: 5, total_tokens: 15, cached_tokens: 0 };
    let saved = save_turn(NEW_TITLE, "What is in cat.png?", &turn, &usage).unwrap();
    assert_eq!(saved.title, "What is in cat.png?");
    assert_eq!(saved.usage.total_tokens, 15);
    assert_eq!(saved.rows.len(), 5);
    assert_eq!(saved.rows[2].role, "tool");

    let messages = load_messages(saved.rows).unwrap();
    assert_eq!(messages.len(), 5);
    assert_eq!(messages[1].tool_calls[0].name, "read_image");
    assert_eq!(messages[2].role_name(), "tool");
    assert_eq!(messages[2].tool_call_id.as_deref(), Some("c1"));
    assert_eq!(messages[3].images[0].data, "QUJD");
    assert_eq!(messages[4].content, "A cat.");
    assert!(messages[4].tool_calls.is_empty());

    let too_many =
        Usage { prompt_tokens: u64::MAX, completion_tokens: 0, total_tokens: 0, cached_tokens: 0 };
    assert!(matches!(save_turn("Mine", "x", &turn, &too_many), Err(TokenOverflow::Input)));
}
