//! What is stored: sessions, their messages and usage, and remembered facts.
//!
//! The database itself is the caller's. Here is what a row means and what goes into one.
use crate::number;
use crate::provider::{
    copy_calls, copy_images, CallModel, ImageAttachment, ImageModel, Message, MessageModel, Role,
    ToolCall, UnknownRole, Usage,
};
use crate::provider;
use crate::text;
use crate::text::{cat, copy_opt, same};
use vstd::prelude::*;
use vstd::string::*;

verus! {

broadcast use crate::text::group_views;

/// A saved conversation.
#[derive(Debug)]
pub struct Session {
    pub id: String,
    pub title: String,
    pub provider: String,
    pub model: String,
}

/// What a [`Session`] stands for.
#[verifier::ext_equal]
pub struct SessionModel {
    pub id: Seq<char>,
    pub title: Seq<char>,
    pub provider: Seq<char>,
    pub model: Seq<char>,
}

impl View for Session {
    type V = SessionModel;

    open spec fn view(&self) -> SessionModel {
        SessionModel {
            id: self.id@,
            title: self.title@,
            provider: self.provider@,
            model: self.model@,
        }
    }
}

/// A session as it is listed.
#[derive(Debug)]
pub struct SessionSummary {
    pub id: String,
    pub title: String,
    pub message_count: i64,
    pub total_tokens: i64,
    pub updated_at: i64,
}

/// What a session has used.
#[derive(Clone, Copy, Debug, PartialEq, Eq, Structural)]
pub struct SessionStats {
    pub request_count: i64,
    pub input_tokens: i64,
    pub output_tokens: i64,
    pub total_tokens: i64,
    pub cached_tokens: i64,
    pub last_input_tokens: Option<i64>,
    pub last_cached_tokens: Option<i64>,
}

impl Default for SessionStats {
    fn default() -> (r: SessionStats)
        ensures
            r == (SessionStats {
                request_count: 0,
                input_tokens: 0,
                output_tokens: 0,
                total_tokens: 0,
                cached_tokens: 0,
                last_input_tokens: None,
                last_cached_tokens: None,
            }),
    {
        SessionStats {
            request_count: 0,
            input_tokens: 0,
            output_tokens: 0,
            total_tokens: 0,
            cached_tokens: 0,
            last_input_tokens: None,
            last_cached_tokens: None,
        }
    }
}

/// A message that a search found.
#[derive(Debug)]
pub struct SearchHit {
    pub session_id: String,
    pub title: String,
    pub role: String,
    pub content: String,
    pub created_at: i64,
}

/// A remembered fact.
#[derive(Debug)]
pub struct MemoryEntry {
    pub content: String,
}

/// What was used in a day, a month or altogether.
#[derive(Debug)]
pub struct UsagePeriod {
    pub period: String,
    pub request_count: i64,
    pub input_tokens: i64,
    pub output_tokens: i64,
    pub total_tokens: i64,
    pub cached_tokens: i64,
}

/// What one model was used for in a session.
#[derive(Debug)]
pub struct ModelStat {
    pub model: String,
    pub request_count: i64,
    pub input_tokens: i64,
    pub output_tokens: i64,
    pub total_tokens: i64,
    pub cached_tokens: i64,
}

// ---------------------------------------------------------------------------------------------
// Sessions
// ---------------------------------------------------------------------------------------------

/// The title of a session that has none yet.
pub const NEW_TITLE: &'static str = "New chat";

/// A session that was not saved yet.
pub open spec fn fresh(id: Seq<char>, provider: Seq<char>, model: Seq<char>) -> SessionModel {
    SessionModel { id, title: NEW_TITLE@, provider, model }
}

/// A new session with the given id.
pub fn session_with_id(id: String, provider: &str, model: &str) -> (r: Session)
    ensures
        r@ == fresh(id@, provider@, model@),
{
    Session {
        id,
        title: NEW_TITLE.to_owned(),
        provider: provider.to_owned(),
        model: model.to_owned(),
    }
}

/// The form of a random id: thirty-two hexadecimal digits in groups of eight, four, four, four
/// and twelve, with hyphens between them. The third group begins with the version, 4, and the fourth
/// with the variant, one of 8, 9, a and b.
pub open spec fn random_form(id: Seq<char>) -> bool {
    &&& id.len() == 36
    &&& forall|i: int|
        0 <= i < 36 ==> if i == 8 || i == 13 || i == 18 || i == 23 {
            #[trigger] id[i] == '-'
        } else {
            '0' <= id[i] <= '9' || 'a' <= id[i] <= 'f'
        }
    &&& id[14] == '4'
    &&& id[19] == '8' || id[19] == '9' || id[19] == 'a' || id[19] == 'b'
}

/// `uuid::Uuid::new_v4`, as text. The id is random, so all that is said of it is its form, which
/// every id has.
#[verifier::external_body]
fn random_id() -> (r: String)
    ensures
        random_form(r@),
{
    uuid::Uuid::new_v4().to_string()
}

/// A new session with an id of its own.
pub fn create_session(provider: &str, model: &str) -> (r: Session)
    ensures
        r@ == fresh(r@.id, provider@, model@),
        random_form(r@.id),
{
    session_with_id(random_id(), provider, model)
}

/// The one session among those that matched, where there is exactly one.
pub fn find_session(matches: Vec<Session>) -> (r: Option<Session>)
    ensures
        match r {
            Some(session) => matches@.len() == 1 && session == matches@[0],
            None => matches@.len() != 1,
        },
{
    let mut found = matches;
    if found.len() == 1 {
        found.pop()
    } else {
        None
    }
}

/// The title that a first message gives a session.
pub open spec fn title_of(content: Seq<char>) -> Seq<char> {
    if content.len() > 40 {
        content.take(40) + "..."@
    } else {
        content
    }
}

/// The title that a first message gives a session: its first 40 characters.
pub fn make_title(content: &str) -> (r: String)
    ensures
        r@ == title_of(content@),
{
    let front = crate::number::take_chars(content, 40);
    if crate::number::char_count(content) > 40 {
        cat(front.as_str(), "...")
    } else {
        front
    }
}

/// The title of a session after an exchange: the first one names it.
pub open spec fn title_after(title: Seq<char>, content: Seq<char>) -> Seq<char> {
    if title == NEW_TITLE@ {
        title_of(content)
    } else {
        title
    }
}

/// The title of a session after an exchange.
pub fn title_after_exchange(title: &str, content: &str) -> (r: String)
    ensures
        r@ == title_after(title@, content@),
{
    if crate::text::same(title, NEW_TITLE) {
        make_title(content)
    } else {
        title.to_owned()
    }
}

// ---------------------------------------------------------------------------------------------
// Messages and usage
// ---------------------------------------------------------------------------------------------

/// A stored message.
#[derive(Debug)]
pub struct MessageRow {
    pub role: String,
    pub content: String,
    pub tool_calls: Vec<ToolCall>,
    pub tool_call_id: Option<String>,
    pub images: Vec<ImageAttachment>,
}

/// What a [`MessageRow`] stands for.
#[verifier::ext_equal]
pub struct RowModel {
    pub role: Seq<char>,
    pub content: Seq<char>,
    pub tool_calls: Seq<CallModel>,
    pub tool_call_id: Option<Seq<char>>,
    pub images: Seq<ImageModel>,
}

impl View for MessageRow {
    type V = RowModel;

    open spec fn view(&self) -> RowModel {
        RowModel {
            role: self.role@,
            content: self.content@,
            tool_calls: text::views(self.tool_calls@),
            tool_call_id: text::opt_view(self.tool_call_id),
            images: text::views(self.images@),
        }
    }
}

/// The role of a stored message. Unlike a message that is a role and a text alone, it may be that
/// of a tool.
pub open spec fn role_in(name: Seq<char>) -> Option<Role> {
    if name == "tool"@ {
        Some(Role::Tool)
    } else {
        provider::stored_role(name)
    }
}

/// The message of a row, where its role is one.
pub open spec fn message_in(row: RowModel) -> Option<MessageModel> {
    match role_in(row.role) {
        Some(role) => Some(
            MessageModel {
                role,
                content: row.content,
                tool_calls: row.tool_calls,
                tool_call_id: row.tool_call_id,
                images: row.images,
            },
        ),
        None => None,
    }
}

/// The messages of some rows, or the first role among them that is none.
pub open spec fn messages_of(rows: Seq<RowModel>) -> Result<Seq<MessageModel>, Seq<char>>
    decreases rows.len(),
{
    if rows.len() == 0 {
        Ok(seq![])
    } else {
        match messages_of(rows.drop_last()) {
            Err(role) => Err(role),
            Ok(messages) => match message_in(rows.last()) {
                Some(message) => Ok(messages.push(message)),
                None => Err(rows.last().role),
            },
        }
    }
}

proof fn lemma_messages_end(rows: Seq<RowModel>, n: int)
    requires
        0 <= n <= rows.len(),
        messages_of(rows.take(n)) is Err,
    ensures
        messages_of(rows) == messages_of(rows.take(n)),
    decreases rows.len(),
{
    if n == rows.len() {
        assert(rows.take(n) =~= rows);
    } else {
        assert(rows.drop_last().take(n) =~= rows.take(n));
        lemma_messages_end(rows.drop_last(), n);
    }
}

/// The message of a row.
pub fn load_message(row: MessageRow) -> (r: Result<Message, UnknownRole>)
    ensures
        match r {
            Ok(message) => message_in(row@) == Some(message@),
            Err(e) => message_in(row@) is None && e.role@ == row@.role,
        },
{
    let mut message = if same(row.role.as_str(), "tool") {
        Message::tool_result("", row.content.as_str())
    } else {
        match Message::from_parts(row.role.as_str(), row.content) {
            Ok(message) => message,
            Err(e) => {
                return Err(e);
            },
        }
    };
    message.tool_calls = row.tool_calls;
    message.tool_call_id = row.tool_call_id;
    message.images = row.images;
    Ok(message)
}

/// The messages of a session, from its rows in order.
pub fn load_messages(rows: Vec<MessageRow>) -> (r: Result<Vec<Message>, UnknownRole>)
    ensures
        match r {
            Ok(messages) => messages_of(text::views(rows@)) == Ok::<Seq<MessageModel>, Seq<char>>(
                text::views(messages@),
            ),
            Err(e) => messages_of(text::views(rows@)) == Err::<Seq<MessageModel>, Seq<char>>(
                e.role@,
            ),
        },
{
    let ghost all = text::views(rows@);
    let mut rest = rows;
    let ghost mut done: int = 0;
    let mut out: Vec<Message> = Vec::new();
    assert(text::views(out@) =~= seq![]);
    assert(all.take(0) =~= seq![]);
    assert(text::views(rest@) =~= all.skip(0));
    while rest.len() > 0
        invariant
            0 <= done <= all.len(),
            all == text::views(rows@),
            text::views(rest@) == all.skip(done),
            messages_of(all.take(done)) == Ok::<Seq<MessageModel>, Seq<char>>(text::views(out@)),
        decreases rest.len(),
    {
        let ghost before = text::views(out@);
        let ghost left = rest@;
        let row = rest.remove(0);
        proof {
            assert(text::views(left).len() == left.len());
            assert(text::views(left)[0] == row@);
            assert(all.skip(done)[0] == all[done]);
            assert(all.take(done + 1).drop_last() =~= all.take(done));
            assert(all.take(done + 1).last() == row@);
            assert(text::views(rest@) =~= text::views(left).remove(0));
            assert(all.skip(done).remove(0) =~= all.skip(done + 1));
        }
        match load_message(row) {
            Ok(message) => {
                out.push(message);
                assert(text::views(out@) =~= before.push(message@));
            },
            Err(e) => {
                proof {
                    lemma_messages_end(all, done + 1);
                }
                return Err(e);
            },
        }
        proof {
            done = done + 1;
        }
    }
    assert(all.take(done) =~= all);
    Ok(out)
}

/// The row of a message.
pub open spec fn row_for(message: MessageModel) -> RowModel {
    RowModel {
        role: message.role.name_spec(),
        content: message.content,
        tool_calls: message.tool_calls,
        tool_call_id: message.tool_call_id,
        images: message.images,
    }
}

/// The rows of some messages, in order.
pub open spec fn rows_for(messages: Seq<MessageModel>) -> Seq<RowModel> {
    messages.map_values(|message: MessageModel| row_for(message))
}

/// The row of a message.
pub fn save_message(message: &Message) -> (r: MessageRow)
    ensures
        r@ == row_for(message@),
{
    MessageRow {
        role: message.role_name().to_owned(),
        content: message.content.clone(),
        tool_calls: copy_calls(&message.tool_calls),
        tool_call_id: copy_opt(&message.tool_call_id),
        images: copy_images(&message.images),
    }
}

/// What is stored is read back: the messages that were there before, and those of the turn as they
/// were, with the tools that they asked for, what those answered, and the images.
pub proof fn law_turns_read_back(
    stored: Seq<RowModel>,
    before: Seq<MessageModel>,
    turn: Seq<MessageModel>,
)
    requires
        messages_of(stored) == Ok::<Seq<MessageModel>, Seq<char>>(before),
    ensures
        messages_of(stored + rows_for(turn)) == Ok::<Seq<MessageModel>, Seq<char>>(before + turn),
    decreases turn.len(),
{
    let rows = stored + rows_for(turn);
    if turn.len() == 0 {
        assert(rows =~= stored);
        assert(before + turn =~= before);
    } else {
        law_turns_read_back(stored, before, turn.drop_last());
        lemma_role_in(turn.last().role);
        assert(rows.drop_last() =~= stored + rows_for(turn.drop_last()));
        assert(rows.last() == row_for(turn.last()));
        assert(message_in(rows.last()) == Some(turn.last()));
        assert((before + turn.drop_last()).push(turn.last()) =~= before + turn);
    }
}

/// Every role is read back from its name.
proof fn lemma_role_in(role: Role)
    ensures
        role_in(role.name_spec()) == Some(role),
{
    provider::law_role_round_trip(role);
    reveal_strlit("system");
    reveal_strlit("user");
    reveal_strlit("assistant");
    reveal_strlit("tool");
    assert("system"@.len() == 6);
    assert("assistant"@.len() == 9);
    assert("tool"@.len() == 4);
    assert("user"@[0] != "tool"@[0]);
}

/// Usage as it is stored.
#[derive(Clone, Copy, Debug, PartialEq, Eq, Structural)]
pub struct UsageRow {
    pub input_tokens: i64,
    pub output_tokens: i64,
    pub total_tokens: i64,
}

/// A number of tokens that cannot be stored.
#[derive(Clone, Copy, Debug, PartialEq, Eq, Structural)]
pub enum TokenOverflow {
    Input,
    Output,
    Total,
}

impl TokenOverflow {
    /// What the user reads.
    pub fn message(self) -> (r: &'static str)
        ensures
            r@ == match self {
                TokenOverflow::Input => "input token count overflow"@,
                TokenOverflow::Output => "output token count overflow"@,
                TokenOverflow::Total => "total token count overflow"@,
            },
    {
        match self {
            TokenOverflow::Input => "input token count overflow",
            TokenOverflow::Output => "output token count overflow",
            TokenOverflow::Total => "total token count overflow",
        }
    }
}

/// Usage as it is stored, or the first number that is too large for it.
pub open spec fn row_of(usage: Usage) -> Result<UsageRow, TokenOverflow> {
    if usage.prompt_tokens > i64::MAX {
        Err(TokenOverflow::Input)
    } else if usage.completion_tokens > i64::MAX {
        Err(TokenOverflow::Output)
    } else if usage.total_tokens > i64::MAX {
        Err(TokenOverflow::Total)
    } else {
        Ok(
            UsageRow {
                input_tokens: usage.prompt_tokens as i64,
                output_tokens: usage.completion_tokens as i64,
                total_tokens: usage.total_tokens as i64,
            },
        )
    }
}

/// Usage as it is stored.
pub fn usage_row(usage: &Usage) -> (r: Result<UsageRow, TokenOverflow>)
    ensures
        r == row_of(*usage),
{
    let max: u64 = 0x7fff_ffff_ffff_ffff;
    if usage.prompt_tokens > max {
        Err(TokenOverflow::Input)
    } else if usage.completion_tokens > max {
        Err(TokenOverflow::Output)
    } else if usage.total_tokens > max {
        Err(TokenOverflow::Total)
    } else {
        Ok(
            UsageRow {
                input_tokens: usage.prompt_tokens as i64,
                output_tokens: usage.completion_tokens as i64,
                total_tokens: usage.total_tokens as i64,
            },
        )
    }
}

/// All that one exchange stores.
#[derive(Debug)]
pub struct Exchange {
    pub user_role: &'static str,
    pub user_content: String,
    pub assistant_role: &'static str,
    pub assistant_content: String,
    pub usage: UsageRow,
    pub title: String,
}

/// What one exchange stores: both messages in order, the usage, and the title after it.
pub fn save_exchange(title: &str, user: &Message, assistant: &Message, usage: &Usage) -> (r: Result<
    Exchange,
    TokenOverflow,
>)
    ensures
        match r {
            Ok(exchange) => {
                &&& row_of(*usage) == Ok::<UsageRow, TokenOverflow>(exchange.usage)
                &&& exchange.user_role@ == user@.role.name_spec()
                &&& exchange.user_content@ == user@.content
                &&& exchange.assistant_role@ == assistant@.role.name_spec()
                &&& exchange.assistant_content@ == assistant@.content
                &&& exchange.title@ == title_after(title@, user@.content)
            },
            Err(e) => row_of(*usage) == Err::<UsageRow, TokenOverflow>(e),
        },
{
    let row = match usage_row(usage) {
        Ok(row) => row,
        Err(e) => {
            return Err(e);
        },
    };
    Ok(
        Exchange {
            user_role: user.role_name(),
            user_content: user.content.clone(),
            assistant_role: assistant.role_name(),
            assistant_content: assistant.content.clone(),
            usage: row,
            title: title_after_exchange(title, user.content.as_str()),
        },
    )
}

/// The row of a role and a text alone.
pub open spec fn bare_row(role: Seq<char>, content: Seq<char>) -> RowModel {
    RowModel { role, content, tool_calls: seq![], tool_call_id: None, images: seq![] }
}

/// An exchange that is stored is read back as its two messages.
pub proof fn law_exchange_reads_back(
    stored: Seq<RowModel>,
    before: Seq<MessageModel>,
    user: MessageModel,
    assistant: MessageModel,
)
    requires
        messages_of(stored) == Ok::<Seq<MessageModel>, Seq<char>>(before),
    ensures
        messages_of(
            stored + seq![
                bare_row(user.role.name_spec(), user.content),
                bare_row(assistant.role.name_spec(), assistant.content),
            ],
        ) == Ok::<Seq<MessageModel>, Seq<char>>(
            before + seq![
                provider::plain(user.role, user.content),
                provider::plain(assistant.role, assistant.content),
            ],
        ),
{
    let exchange = seq![
        provider::plain(user.role, user.content),
        provider::plain(assistant.role, assistant.content),
    ];
    law_turns_read_back(stored, before, exchange);
    assert(rows_for(exchange) =~= seq![
        bare_row(user.role.name_spec(), user.content),
        bare_row(assistant.role.name_spec(), assistant.content),
    ]);
}

/// All that one turn stores.
#[derive(Debug)]
pub struct SavedTurn {
    pub rows: Vec<MessageRow>,
    pub usage: UsageRow,
    pub title: String,
}

/// What one turn stores: its messages in order, the usage, and the title after it.
pub fn save_turn(title: &str, title_source: &str, turn: &[Message], usage: &Usage) -> (r: Result<
    SavedTurn,
    TokenOverflow,
>)
    ensures
        match r {
            Ok(saved) => {
                &&& row_of(*usage) == Ok::<UsageRow, TokenOverflow>(saved.usage)
                &&& text::views(saved.rows@) == rows_for(text::views(turn@))
                &&& saved.title@ == title_after(title@, title_source@)
            },
            Err(e) => row_of(*usage) == Err::<UsageRow, TokenOverflow>(e),
        },
{
    let usage = match usage_row(usage) {
        Ok(row) => row,
        Err(e) => {
            return Err(e);
        },
    };
    let mut rows: Vec<MessageRow> = Vec::new();
    let mut i: usize = 0;
    while i < turn.len()
        invariant
            i <= turn.len(),
            text::views(rows@) =~= rows_for(text::views(turn@)).take(i as int),
        decreases turn.len() - i,
    {
        rows.push(save_message(&turn[i]));
        i += 1;
    }
    Ok(SavedTurn { rows, usage, title: title_after_exchange(title, title_source) })
}

// ---------------------------------------------------------------------------------------------
// The schema
// ---------------------------------------------------------------------------------------------

/// The changes that bring a database of the given version up to date, in order.
pub open spec fn due(version: i64) -> Seq<int> {
    if version < 1 {
        seq![1, 2]
    } else if version < 2 {
        seq![2]
    } else {
        seq![]
    }
}

/// The changes, by number, that bring a database of the given version up to date.
pub fn due_migrations(version: i64) -> (r: Vec<u8>)
    ensures
        r@.map_values(|n: u8| n as int) == due(version),
{
    let mut out: Vec<u8> = Vec::new();
    if version < 1 {
        out.push(1);
    }
    if version < 2 {
        out.push(2);
    }
    assert(out@.map_values(|n: u8| n as int) =~= due(version));
    out
}

/// A title is the front of the words that it is made from: all of them where they are few, and
/// otherwise the first forty characters and a mark. A title that the session already has stays.
pub proof fn law_titles_come_from_the_words(title: Seq<char>, content: Seq<char>)
    ensures
        content.len() <= 40 ==> title_of(content) == content,
        content.len() > 40 ==> title_of(content).take(40) == content.take(40) && title_of(
            content,
        ).skip(40) == seq!['.', '.', '.'],
        title != NEW_TITLE@ ==> title_after(title, content) == title,
        content.len() <= 40 ==> title_after(NEW_TITLE@, content) == content,
{
    reveal_strlit("...");
    if content.len() > 40 {
        assert(title_of(content).take(40) =~= content.take(40));
        assert(title_of(content).skip(40) =~= seq!['.', '.', '.']);
    }
}

/// What was used is stored as it is, exactly where every count can be.
pub proof fn law_usage_is_stored_as_it_is(usage: Usage)
    ensures
        row_of(usage) is Ok <==> usage.prompt_tokens <= i64::MAX && usage.completion_tokens
            <= i64::MAX && usage.total_tokens <= i64::MAX,
        row_of(usage) matches Ok(row) ==> row.input_tokens == usage.prompt_tokens
            && row.output_tokens == usage.completion_tokens && row.total_tokens
            == usage.total_tokens,
{
}

/// A message and its row tell the same: none of its parts is lost in the row.
pub proof fn law_rows_hold_whole_messages(message: MessageModel)
    ensures
        row_for(message).content == message.content,
        row_for(message).tool_calls == message.tool_calls,
        row_for(message).tool_call_id == message.tool_call_id,
        row_for(message).images == message.images,
        message_in(row_for(message)) == Some(message),
{
    reveal_strlit("system");
    reveal_strlit("user");
    reveal_strlit("assistant");
    reveal_strlit("tool");
    provider::law_role_round_trip(message.role);
    assert("tool"@.len() == 4 && "user"@.len() == 4 && "tool"@[0] != "user"@[0]);
    assert("system"@.len() == 6 && "assistant"@.len() == 9);
}

/// The changes that a database still needs are all those after its version, in order.
pub proof fn law_every_later_change_is_due(version: i64, n: int)
    ensures
        due(version).contains(n) <==> version < n && 1 <= n <= 2,
        due(version).len() == 2 ==> due(version)[0] < due(version)[1],
        due(version).len() <= 2,
{
    if version < 1 {
        assert(due(version)[0] == 1 && due(version)[1] == 2);
    } else if version < 2 {
        assert(due(version)[0] == 2);
    }
}

/// A new session has the id, the provider and the model that it was made with, and no title of its
/// own yet.
pub proof fn law_new_sessions_hold_what_they_were_made_with(
    id: Seq<char>,
    provider: Seq<char>,
    model: Seq<char>,
)
    ensures
        fresh(id, provider, model).id == id,
        fresh(id, provider, model).provider == provider,
        fresh(id, provider, model).model == model,
        fresh(id, provider, model).title == NEW_TITLE@,
{
}

} // verus!
