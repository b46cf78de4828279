//! One turn of a conversation: what is sent, what comes back, and how tool calls are answered
//! until there is a plain answer.
use crate::batch;
use crate::mode;
use crate::mode::{Decision, Gate};
use crate::number;
use crate::number::count;
use crate::provider;
use crate::provider::{
    copy_messages, CallModel, DefinitionModel, ImageAttachment, Message, MessageModel, Role, ToolCall,
    ToolDefinition, Usage,
};
use crate::scan;
use crate::scan::{is_blank, starts_with, trim_start, Class};
use crate::storage::MemoryEntry;
use crate::text;
use crate::text::{cat, cat3, same};
use crate::tools::{ToolError, SPAWN_AGENT_TOOL};
use vstd::prelude::*;
use vstd::string::*;

verus! {

broadcast use crate::text::group_views;

/// How many times in one turn the model may ask for tools.
pub const MAX_TOOL_ROUNDS: usize = 25;

/// How many sub-agents run at once.
pub const MAX_CONCURRENT_SUB_AGENTS: usize = 4;

// ---------------------------------------------------------------------------------------------
// What is sent
// ---------------------------------------------------------------------------------------------

/// The part of a request that stays the same from turn to turn: the system prompt, and the list of
/// skills where there is one.
pub open spec fn head_of(base: Seq<char>, skills: Option<Seq<char>>) -> Seq<MessageModel> {
    let first = seq![provider::plain(Role::System, base)];
    match skills {
        Some(list) => if list.len() > 0 {
            first.push(provider::plain(Role::System, list))
        } else {
            first
        },
        None => first,
    }
}

/// The part of a request that stays the same from turn to turn. What is remembered is no part of
/// it, so that remembering something leaves it as it is.
pub fn build_head_messages(base_system: &str, skills_eager: Option<&str>) -> (r: Vec<Message>)
    ensures
        text::views(r@) == head_of(
            base_system@,
            text::str_view(skills_eager),
        ),
{
    let mut head: Vec<Message> = Vec::new();
    head.push(Message::system(base_system));
    let ghost first = seq![provider::plain(Role::System, base_system@)];
    assert(text::views(head@) =~= first);
    if let Some(skills) = skills_eager {
        if !skills.is_empty() {
            head.push(Message::system(skills));
            assert(text::views(head@) =~= first.push(provider::plain(Role::System, skills@)));
        }
    }
    head
}

/// The remembered facts as they are told to the model.
pub open spec fn memory_text(entries: Seq<MemoryEntry>) -> Seq<char>
    decreases entries.len(),
{
    if entries.len() == 0 {
        "Remembered facts about the user (persist across sessions and projects):"@
    } else {
        memory_text(entries.drop_last()) + "\n- "@ + entries.last().content@
    }
}

/// The remembered facts as they are told to the model, or nothing where there are none.
pub open spec fn memory_snapshot(entries: Seq<MemoryEntry>) -> Seq<char> {
    if entries.len() == 0 {
        seq![]
    } else {
        memory_text(entries)
    }
}

/// The remembered facts as they are told to the model, or nothing where there are none.
pub fn render_memory_snapshot(entries: &[MemoryEntry]) -> (r: String)
    ensures
        r@ == memory_snapshot(entries@),
{
    if entries.len() == 0 {
        let none = String::new();
        assert(none@ =~= seq![]);
        return none;
    }
    let mut out =
        "Remembered facts about the user (persist across sessions and projects):".to_owned();
    let mut i: usize = 0;
    while i < entries.len()
        invariant
            i <= entries.len(),
            out@ == memory_text(entries@.take(i as int)),
        decreases entries.len() - i,
    {
        assert(entries@.take(i + 1).drop_last() =~= entries@.take(i as int));
        assert(entries@.take(i + 1).last() == entries@[i as int]);
        out.append("\n- ");
        out.append(entries[i].content.as_str());
        i += 1;
    }
    assert(entries@.take(i as int) =~= entries@);
    out
}

/// What changes from turn to turn without the user's doing: what is remembered, and the summary of
/// earlier messages. It goes behind the history, so that what stands before it stays the same.
pub open spec fn tail_of(memory: Seq<char>, summary: Option<Seq<char>>) -> Seq<MessageModel> {
    let first: Seq<MessageModel> = if memory.len() > 0 {
        seq![provider::plain(Role::System, memory)]
    } else {
        seq![]
    };
    match summary {
        Some(words) => first.push(provider::plain(Role::System, words)),
        None => first,
    }
}

/// What changes from turn to turn without the user's doing.
pub fn volatile_tail(memory: &str, summary: Option<&str>) -> (r: Vec<Message>)
    ensures
        text::views(r@) == tail_of(
            memory@,
            text::str_view(summary),
        ),
{
    let mut tail: Vec<Message> = Vec::new();
    assert(text::views(tail@) =~= seq![]);
    if !memory.is_empty() {
        tail.push(Message::system(memory));
        assert(text::views(tail@) =~= seq![provider::plain(Role::System, memory@)]);
    }
    let ghost first = text::views(tail@);
    if let Some(words) = summary {
        tail.push(Message::system(words));
        assert(text::views(tail@) =~= first.push(provider::plain(Role::System, words@)));
    }
    tail
}

/// What a turn begins with: head, history, tail and the prompt.
pub open spec fn opening(
    head: Seq<MessageModel>,
    history: Seq<MessageModel>,
    tail: Seq<MessageModel>,
    prompt: MessageModel,
) -> Seq<MessageModel> {
    (head + history + tail).push(prompt)
}

/// Remembering a fact, or summing up what came before, changes nothing of what stands in front of
/// the tail.
pub proof fn law_tail_leaves_the_front_alone(
    head: Seq<MessageModel>,
    history: Seq<MessageModel>,
    tail: Seq<MessageModel>,
    other_tail: Seq<MessageModel>,
    prompt: MessageModel,
    i: int,
)
    requires
        0 <= i < head.len() + history.len(),
    ensures
        opening(head, history, tail, prompt)[i] == opening(head, history, other_tail, prompt)[i],
        opening(head, history, tail, prompt)[i] == (head + history)[i],
{
}

// ---------------------------------------------------------------------------------------------
// Usage
// ---------------------------------------------------------------------------------------------

/// The usage of a turn after one more request: output adds up, and input is that of the last one.
pub open spec fn with_round(total: Usage, round: Usage) -> Usage {
    Usage {
        prompt_tokens: round.prompt_tokens,
        completion_tokens: (total.completion_tokens + round.completion_tokens) as u64,
        total_tokens: (round.prompt_tokens + total.completion_tokens
            + round.completion_tokens) as u64,
        cached_tokens: round.cached_tokens,
    }
}

/// The numbers of a turn can still be added up.
pub open spec fn addable(total: Usage, round: Usage) -> bool {
    round.prompt_tokens + total.completion_tokens + round.completion_tokens <= u64::MAX
}

/// Add the usage of one more request to that of the turn.
pub fn accumulate_usage(total: &mut Usage, round: &Usage)
    requires
        addable(*old(total), *round),
    ensures
        *final(total) == with_round(*old(total), *round),
{
    total.completion_tokens += round.completion_tokens;
    total.prompt_tokens = round.prompt_tokens;
    total.cached_tokens = round.cached_tokens;
    total.total_tokens = total.prompt_tokens + total.completion_tokens;
}

// ---------------------------------------------------------------------------------------------
// The loop
// ---------------------------------------------------------------------------------------------

/// What a tool gave back.
#[derive(Debug)]
pub struct Answer {
    pub output: String,
    /// What the model is to see besides, as a message of its own.
    pub visual: Option<Message>,
}

/// The answers of a batch of calls, one for each, in order.
pub open spec fn results(calls: Seq<CallModel>, answers: Seq<Answer>) -> Seq<MessageModel> {
    Seq::new(
        answers.len(),
        |i: int|
            MessageModel {
                tool_call_id: Some(calls[i].id),
                ..provider::plain(Role::Tool, answers[i].output@)
            },
    )
}

/// What the model is to see besides the answers, in order.
pub open spec fn visuals(answers: Seq<Answer>) -> Seq<MessageModel>
    decreases answers.len(),
{
    if answers.len() == 0 {
        seq![]
    } else {
        match answers.last().visual {
            Some(message) => visuals(answers.drop_last()).push(message@),
            None => visuals(answers.drop_last()),
        }
    }
}

/// The assistant's request to run tools, as a message.
pub open spec fn request_of(content: Seq<char>, calls: Seq<CallModel>) -> MessageModel {
    MessageModel { tool_calls: calls, ..provider::plain(Role::Assistant, content) }
}

/// All that one round adds to the conversation: the request, then every answer, and what is to be
/// seen only after the last of them.
pub open spec fn round_messages(
    content: Seq<char>,
    calls: Seq<CallModel>,
    answers: Seq<Answer>,
) -> Seq<MessageModel> {
    seq![request_of(content, calls)] + results(calls, answers) + visuals(answers)
}

/// A turn in progress.
#[derive(Debug)]
pub struct Turn {
    pub round: usize,
    /// All that is sent with the next request.
    pub messages: Vec<Message>,
    /// What this turn added, but for the prompt and the answer.
    pub trail: Vec<Message>,
    pub usage: Usage,
    pub finish_reason: String,
    pub last_content: String,
    /// The calls that are to be answered.
    pub open_calls: Vec<ToolCall>,
}

/// What a [`Turn`] stands for.
#[verifier::ext_equal]
pub struct TurnModel {
    pub round: int,
    pub messages: Seq<MessageModel>,
    pub trail: Seq<MessageModel>,
    pub usage: Usage,
    pub finish_reason: Seq<char>,
    pub last_content: Seq<char>,
    pub open_calls: Seq<CallModel>,
}

impl View for Turn {
    type V = TurnModel;

    open spec fn view(&self) -> TurnModel {
        TurnModel {
            round: self.round as int,
            messages: text::views(self.messages@),
            trail: text::views(self.trail@),
            usage: self.usage,
            finish_reason: self.finish_reason@,
            last_content: self.last_content@,
            open_calls: text::views(self.open_calls@),
        }
    }
}

impl TurnModel {
    /// The limit on rounds is kept, and what the turn added stands at the end of what is sent.
    pub open spec fn wf(self) -> bool {
        &&& 0 <= self.round <= MAX_TOOL_ROUNDS + 1
        &&& self.trail.len() <= self.messages.len()
        &&& self.messages.skip(self.messages.len() - self.trail.len()) == self.trail
    }
}

/// A turn that has not sent anything yet.
pub open spec fn begun(messages: Seq<MessageModel>) -> TurnModel {
    TurnModel {
        round: 0,
        messages,
        trail: seq![],
        usage: provider::no_usage(),
        finish_reason: seq![],
        last_content: seq![],
        open_calls: seq![],
    }
}

/// A turn in its next round.
pub open spec fn in_next_round(turn: TurnModel) -> TurnModel {
    TurnModel { round: turn.round + 1, ..turn }
}

/// The round may send a request.
pub open spec fn sends(turn: TurnModel) -> bool {
    turn.round <= MAX_TOOL_ROUNDS
}

/// What to do in a round.
#[derive(Debug)]
pub enum Step {
    /// Send the conversation.
    Send,
    /// The rounds are used up: this is the answer.
    Stop(Message),
}

/// The answer where the rounds are used up.
pub open spec fn stopped(last_content: Seq<char>) -> MessageModel {
    provider::plain(
        Role::Assistant,
        if last_content.len() == 0 {
            "(stopped: reached the tool-call round limit)"@
        } else {
            last_content
        },
    )
}

/// The turn with some messages added.
pub open spec fn with_added(turn: TurnModel, added: Seq<MessageModel>) -> TurnModel {
    TurnModel { messages: turn.messages + added, trail: turn.trail + added, ..turn }
}

proof fn lemma_added_wf(turn: TurnModel, added: Seq<MessageModel>)
    requires
        turn.wf(),
    ensures
        with_added(turn, added).wf(),
{
    let m = turn.messages + added;
    let t = turn.trail + added;
    assert(m.skip(m.len() - t.len()) =~= t) by {
        assert forall|i: int| 0 <= i < t.len() implies m.skip(m.len() - t.len())[i] == t[i] by {
            if i < turn.trail.len() {
                assert(turn.messages.skip(turn.messages.len() - turn.trail.len())[i]
                    == turn.trail[i]);
            }
        }
    }
}

/// The turn after a reply. Tool calls are added as a request, and are open then.
pub open spec fn received(
    turn: TurnModel,
    content: Seq<char>,
    usage: Usage,
    finish_reason: Seq<char>,
    calls: Seq<CallModel>,
) -> TurnModel {
    let next = TurnModel { usage, finish_reason, last_content: content, ..turn };
    if calls.len() == 0 {
        next
    } else {
        TurnModel { open_calls: calls, ..with_added(next, seq![request_of(content, calls)]) }
    }
}

/// The open calls are answered.
pub open spec fn answered(turn: TurnModel, answers: Seq<Answer>) -> TurnModel {
    TurnModel {
        open_calls: seq![],
        ..with_added(turn, results(turn.open_calls, answers) + visuals(answers))
    }
}

/// All that a turn leaves behind: the prompt, what was asked and answered on the way, and the
/// answer.
pub open spec fn recorded(turn: TurnModel, user: MessageModel, answer: MessageModel) -> Seq<
    MessageModel,
> {
    seq![user] + turn.trail + seq![answer]
}

/// The answer that a reply is, where it asks for no tools.
pub open spec fn answer_in(content: Seq<char>, calls: Seq<CallModel>) -> Option<MessageModel> {
    if calls.len() == 0 {
        Some(provider::plain(Role::Assistant, content))
    } else {
        None
    }
}

/// Why a turn that nobody watches stops.
pub open spec fn round_limit(who: Seq<char>) -> Seq<char> {
    who + "stopped after "@ + number::decimal(MAX_TOOL_ROUNDS as nat)
        + " tool rounds without a final answer"@
}

/// What becomes of a line that the user typed while the turn runs.
#[derive(Debug)]
pub enum Steering {
    /// It approved the pending plan.
    Approved,
    /// It is a command, for when the turn is over.
    Later,
    /// The model is told.
    Told,
}

/// The line is a command.
pub open spec fn is_command_line(line: Seq<char>) -> bool {
    scan::has_prefix(scan::trim_front(line, scan::white()), "/"@)
}

impl Turn {
    /// Begin a turn.
    pub fn new(head: &[Message], history: &[Message], tail: Vec<Message>, prompt: Message) -> (r: Turn)
        ensures
            r@ == begun(
                opening(
                    text::views(head@),
                    text::views(history@),
                    text::views(tail@),
                    prompt@,
                ),
            ),
            r@.wf(),
    {
        let mut messages = copy_messages(head);
        let ghost first = text::views(messages@);
        let mut more = copy_messages(history);
        messages.append(&mut more);
        let ghost second = text::views(messages@);
        assert(second =~= first + text::views(history@));
        let ghost last = text::views(tail@);
        let mut rest = tail;
        messages.append(&mut rest);
        let ghost third = text::views(messages@);
        assert(third =~= second + last);
        let ghost model = prompt@;
        messages.push(prompt);
        assert(text::views(messages@) =~= third.push(model));
        let turn = Turn {
            round: 0,
            messages,
            trail: Vec::new(),
            usage: Usage::default(),
            finish_reason: String::new(),
            last_content: String::new(),
            open_calls: Vec::new(),
        };
        assert(turn@.trail =~= seq![]);
        assert(turn@.finish_reason =~= seq![]);
        assert(turn@.last_content =~= seq![]);
        assert(turn@.open_calls =~= seq![]);
        assert(turn@.messages.skip(turn@.messages.len() as int) =~= seq![]);
        turn
    }

    /// Begin the next round.
    pub fn next_round(&mut self)
        requires
            old(self)@.wf(),
            old(self)@.round <= MAX_TOOL_ROUNDS,
        ensures
            final(self)@ == in_next_round(old(self)@),
            final(self)@.wf(),
    {
        self.round += 1;
    }

    /// Add messages of the turn to what is sent and to what it leaves behind.
    fn add(&mut self, message: Message)
        requires
            old(self)@.wf(),
        ensures
            final(self)@ == with_added(old(self)@, seq![message@]),
            final(self)@.wf(),
    {
        let ghost before = self@;
        let ghost model = message@;
        let copy = message.copy();
        self.messages.push(copy);
        self.trail.push(message);
        assert(text::views(self.messages@) =~= before.messages + seq![model]);
        assert(text::views(self.trail@) =~= before.trail + seq![model]);
        proof {
            lemma_added_wf(before, seq![model]);
        }
    }

    /// Take in a line that the user typed while the turn runs.
    pub fn steer(&mut self, gate: &mut Gate, line: &str) -> (r: Steering)
        requires
            old(self)@.wf(),
            old(gate)@.wf(),
        ensures
            final(self)@.wf(),
            final(gate)@.wf(),
            match r {
                Steering::Approved => old(gate)@.pending() && mode::approves_plan(line@)
                    && final(gate)@ == mode::at_answer(old(gate)@, Some(line@)) && final(self)@
                    == old(self)@,
                Steering::Later => !(old(gate)@.pending() && mode::approves_plan(line@))
                    && is_command_line(line@) && final(gate)@ == old(gate)@ && final(self)@ == old(
                    self,
                )@,
                Steering::Told => !(old(gate)@.pending() && mode::approves_plan(line@))
                    && !is_command_line(line@) && final(gate)@ == old(gate)@ && final(self)@
                    == with_added(old(self)@, seq![provider::plain(Role::User, line@)]),
            },
    {
        if gate.answer_plan(Some(line)) {
            return Steering::Approved;
        }
        let bare = trim_start(line, &Class::White);
        if starts_with(bare.as_str(), "/") {
            return Steering::Later;
        }
        self.add(Message::user(line));
        Steering::Told
    }

    /// What to do in this round.
    pub fn step(&self) -> (r: Step)
        requires
            self@.wf(),
        ensures
            match r {
                Step::Send => sends(self@),
                Step::Stop(message) => !sends(self@) && message@ == stopped(
                    self@.last_content,
                ),
            },
    {
        if self.round <= MAX_TOOL_ROUNDS {
            return Step::Send;
        }
        if self.last_content.as_str().is_empty() {
            Step::Stop(Message::assistant("(stopped: reached the tool-call round limit)"))
        } else {
            Step::Stop(Message::assistant(self.last_content.as_str()))
        }
    }

    /// What to do in this round where nobody watches the turn: go on, or stop with an error that
    /// begins by saying who stopped.
    pub fn step_alone(&self, who: &str) -> (r: Result<(), String>)
        requires
            self@.wf(),
        ensures
            match r {
                Ok(_) => sends(self@),
                Err(error) => !sends(self@) && error@ == round_limit(who@),
            },
    {
        if self.round <= MAX_TOOL_ROUNDS {
            return Ok(());
        }
        let most = count(MAX_TOOL_ROUNDS);
        let mut error = cat3(who, "stopped after ", most.as_str());
        error.append(" tool rounds without a final answer");
        Err(error)
    }

    /// Take in a reply. Without tool calls it is the answer; otherwise the calls are open now. The
    /// usage adds up over the turn.
    pub fn receive(
        &mut self,
        content: String,
        usage: Usage,
        finish_reason: String,
        calls: Vec<ToolCall>,
    ) -> (r: Option<Message>)
        requires
            old(self)@.wf(),
            addable(old(self)@.usage, usage),
        ensures
            final(self)@.wf(),
            final(self)@ == received(
                old(self)@,
                content@,
                with_round(old(self)@.usage, usage),
                finish_reason@,
                text::views(calls@),
            ),
            text::opt_view(r) == answer_in(content@, text::views(calls@)),
    {
        let mut total = self.usage;
        accumulate_usage(&mut total, &usage);
        self.usage = total;
        self.finish_reason = finish_reason;
        if calls.len() == 0 {
            let message = Message::assistant(content.as_str());
            self.last_content = content;
            return Some(message);
        }
        let copies = provider::copy_calls(&calls);
        let request = Message::tool_request(content.as_str(), copies);
        self.last_content = content;
        self.add(request);
        self.open_calls = calls;
        None
    }

    /// Answer all open calls at once, in order. What the model is to see besides goes behind the
    /// last answer, so that no answer is cut off from the request.
    pub fn answer(&mut self, answers: Vec<Answer>)
        requires
            old(self)@.wf(),
            answers@.len() == old(self)@.open_calls.len(),
        ensures
            final(self)@ == answered(old(self)@, answers@),
            final(self)@.wf(),
    {
        let ghost start = self@;
        let ghost all = answers@;
        let ghost calls = self@.open_calls;
        let ghost wanted = results(calls, all);
        let mut seen: Vec<Message> = Vec::new();
        let mut i: usize = 0;
        assert(text::views(seen@) =~= seq![]);
        proof {
            assert(with_added(start, wanted.take(0)) =~= start) by {
                assert(start.messages + wanted.take(0) =~= start.messages);
                assert(start.trail + wanted.take(0) =~= start.trail);
            }
        }
        while i < answers.len()
            invariant
                i <= answers.len(),
                answers@ == all,
                all.len() == calls.len(),
                wanted == results(calls, all),
                start.open_calls == calls,
                self@ == with_added(start, wanted.take(i as int)),
                self@.wf(),
                text::views(seen@) == visuals(all.take(i as int)),
            decreases answers.len() - i,
        {
            let ghost before = self@;
            let ghost seen_before = text::views(seen@);
            proof {
                assert(all.take(i + 1).drop_last() =~= all.take(i as int));
                assert(all.take(i + 1).last() == all[i as int]);
            }
            assert(self@.open_calls == calls);
            let result = Message::tool_result(
                self.open_calls[i].id.as_str(),
                answers[i].output.as_str(),
            );
            assert(result@ == wanted[i as int]);
            let ghost model = result@;
            self.add(result);
            proof {
                assert(wanted.take(i + 1) =~= wanted.take(i as int) + seq![model]);
                assert(before.messages + seq![model] =~= start.messages + wanted.take(i + 1));
                assert(before.trail + seq![model] =~= start.trail + wanted.take(i + 1));
            }
            if let Some(message) = &answers[i].visual {
                seen.push(message.copy());
                assert(text::views(seen@) =~= seen_before.push(message@));
            }
            i += 1;
        }
        assert(wanted.take(i as int) =~= wanted);
        assert(all.take(i as int) =~= all);
        let ghost middle = self@;
        let ghost shown = text::views(seen@);
        let mut k: usize = 0;
        proof {
            assert(with_added(middle, shown.take(0)) =~= middle) by {
                assert(middle.messages + shown.take(0) =~= middle.messages);
                assert(middle.trail + shown.take(0) =~= middle.trail);
            }
        }
        while k < seen.len()
            invariant
                k <= seen.len(),
                shown == text::views(seen@),
                self@ == with_added(middle, shown.take(k as int)),
                self@.wf(),
            decreases seen.len() - k,
        {
            let ghost before = self@;
            let message = seen[k].copy();
            let ghost model = message@;
            self.add(message);
            proof {
                assert(model == shown[k as int]);
                assert(shown.take(k + 1) =~= shown.take(k as int) + seq![model]);
                assert(before.messages + seq![model] =~= middle.messages + shown.take(k + 1));
                assert(before.trail + seq![model] =~= middle.trail + shown.take(k + 1));
            }
            k += 1;
        }
        self.open_calls = Vec::new();
        proof {
            assert(shown.take(k as int) =~= shown);
            assert(text::views(self.open_calls@) =~= seq![]);
            assert(start.messages + wanted + shown =~= start.messages + (wanted + shown));
            assert(start.trail + wanted + shown =~= start.trail + (wanted + shown));
        }
    }

    /// All that the turn leaves behind: the prompt, what was asked and answered on the way, and the
    /// answer.
    pub fn record(self, user: Message, answer: Message) -> (r: Vec<Message>)
        ensures
            text::views(r@) == recorded(self@, user@, answer@),
    {
        let mut out: Vec<Message> = Vec::new();
        let ghost first = user@;
        let ghost last = answer@;
        let ghost middle = self@.trail;
        out.push(user);
        let mut trail = self.trail;
        out.append(&mut trail);
        out.push(answer);
        assert(text::views(out@) =~= seq![first] + middle + seq![last]);
        out
    }
}

/// Every call is answered: directly behind the request, in the order of the calls, each under the
/// id of its call, and nothing comes between.
pub proof fn law_calls_are_answered_in_order(
    turn: TurnModel,
    content: Seq<char>,
    calls: Seq<CallModel>,
    answers: Seq<Answer>,
    i: int,
)
    requires
        answers.len() == calls.len(),
        0 <= i < calls.len(),
    ensures
        ({
            let asked = with_added(turn, seq![request_of(content, calls)]);
            let after = with_added(asked, results(calls, answers) + visuals(answers));
            &&& after.messages == turn.messages + round_messages(content, calls, answers)
            &&& after.messages[turn.messages.len() as int] == request_of(content, calls)
            &&& after.messages[turn.messages.len() + 1 + i].role == Role::Tool
            &&& after.messages[turn.messages.len() + 1 + i].tool_call_id == Some(calls[i].id)
            &&& after.messages[turn.messages.len() + 1 + i].content == answers[i].output@
        }),
{
    let asked = with_added(turn, seq![request_of(content, calls)]);
    let after = with_added(asked, results(calls, answers) + visuals(answers));
    assert(after.messages =~= turn.messages + round_messages(content, calls, answers));
}

/// One round of a turn: a reply that asks for tools, and the answers of the tools.
pub struct Round {
    pub content: Seq<char>,
    pub usage: Usage,
    pub finish_reason: Seq<char>,
    pub calls: Seq<CallModel>,
    pub answers: Seq<Answer>,
}

/// Each reply asks for tools, and each call is answered.
pub open spec fn proper(rounds: Seq<Round>) -> bool {
    forall|i: int|
        0 <= i < rounds.len() ==> (#[trigger] rounds[i]).calls.len() > 0
            && rounds[i].answers.len() == rounds[i].calls.len()
}

/// A turn after some rounds.
pub open spec fn played(messages: Seq<MessageModel>, rounds: Seq<Round>) -> TurnModel
    decreases rounds.len(),
{
    if rounds.len() == 0 {
        begun(messages)
    } else {
        let round = rounds.last();
        let before = in_next_round(played(messages, rounds.drop_last()));
        answered(
            received(
                before,
                round.content,
                with_round(before.usage, round.usage),
                round.finish_reason,
                round.calls,
            ),
            round.answers,
        )
    }
}

/// What is said in some rounds, in order.
pub open spec fn said(rounds: Seq<Round>) -> Seq<MessageModel>
    decreases rounds.len(),
{
    if rounds.len() == 0 {
        seq![]
    } else {
        let round = rounds.last();
        said(rounds.drop_last()) + round_messages(round.content, round.calls, round.answers)
    }
}

/// A turn cannot run away: however often the model asks for tools, requests go out in no more
/// rounds than the limit allows.
pub proof fn law_rounds_are_bounded(messages: Seq<MessageModel>, rounds: Seq<Round>)
    requires
        forall|i: int|
            0 <= i < rounds.len() ==> sends(
                in_next_round(#[trigger] played(messages, rounds.take(i))),
            ),
    ensures
        rounds.len() <= MAX_TOOL_ROUNDS,
        played(messages, rounds).round == rounds.len(),
{
    lemma_rounds_count(messages, rounds);
    if rounds.len() > 0 {
        let last = rounds.len() - 1;
        assert(sends(in_next_round(played(messages, rounds.take(last)))));
        lemma_rounds_count(messages, rounds.take(last));
    }
}

proof fn lemma_rounds_count(messages: Seq<MessageModel>, rounds: Seq<Round>)
    ensures
        played(messages, rounds).round == rounds.len(),
    decreases rounds.len(),
{
    if rounds.len() > 0 {
        lemma_rounds_count(messages, rounds.drop_last());
    }
}

/// The whole turn is recorded: the prompt, every request for tools with every answer to it, and the
/// answer. What else was sent with it, such as attached files, is no part of the record.
pub proof fn law_whole_turns_are_recorded(
    messages: Seq<MessageModel>,
    rounds: Seq<Round>,
    user: MessageModel,
    answer: MessageModel,
)
    requires
        proper(rounds),
    ensures
        recorded(played(messages, rounds), user, answer) == seq![user] + said(rounds) + seq![answer],
        played(messages, rounds).messages == messages + said(rounds),
{
    lemma_trail(messages, rounds);
}

proof fn lemma_trail(messages: Seq<MessageModel>, rounds: Seq<Round>)
    requires
        proper(rounds),
    ensures
        played(messages, rounds).trail == said(rounds),
        played(messages, rounds).messages == messages + said(rounds),
    decreases rounds.len(),
{
    if rounds.len() == 0 {
        assert(messages + said(rounds) =~= messages);
    } else {
        let before = rounds.drop_last();
        let round = rounds.last();
        assert(rounds[rounds.len() - 1].calls.len() > 0);
        assert forall|i: int| 0 <= i < before.len() implies (#[trigger] before[i]).calls.len() > 0
            && before[i].answers.len() == before[i].calls.len() by {
            assert(before[i] == rounds[i]);
        }
        lemma_trail(messages, before);
        let start = in_next_round(played(messages, before));
        let asked = received(
            start,
            round.content,
            with_round(start.usage, round.usage),
            round.finish_reason,
            round.calls,
        );
        let added = round_messages(round.content, round.calls, round.answers);
        assert(asked.open_calls == round.calls);
        assert(answered(asked, round.answers).trail =~= start.trail + added);
        assert(answered(asked, round.answers).messages =~= start.messages + added);
        assert(start.messages + added =~= messages + (said(before) + added));
    }
}

/// Nothing that a turn sent before is changed or taken out by what comes later: every step adds
/// at the end.
pub proof fn law_turns_only_grow(
    turn: TurnModel,
    content: Seq<char>,
    usage: Usage,
    finish_reason: Seq<char>,
    calls: Seq<CallModel>,
    answers: Seq<Answer>,
)
    requires
        turn.wf(),
    ensures
        ({
            let after = received(turn, content, usage, finish_reason, calls);
            let last = with_added(after, results(calls, answers) + visuals(answers));
            &&& turn.messages.is_prefix_of(after.messages)
            &&& after.messages.is_prefix_of(last.messages)
            &&& turn.trail.is_prefix_of(after.trail)
            &&& after.trail.is_prefix_of(last.trail)
        }),
{
    let after = received(turn, content, usage, finish_reason, calls);
    let last = with_added(after, results(calls, answers) + visuals(answers));
    assert(turn.messages =~= after.messages.subrange(0, turn.messages.len() as int));
    assert(after.messages =~= last.messages.subrange(0, after.messages.len() as int));
    assert(turn.trail =~= after.trail.subrange(0, turn.trail.len() as int));
    assert(after.trail =~= last.trail.subrange(0, after.trail.len() as int));
}

/// The output of all replies of some rounds.
pub open spec fn output_of(rounds: Seq<Round>) -> int
    decreases rounds.len(),
{
    if rounds.len() == 0 {
        0
    } else {
        output_of(rounds.drop_last()) + rounds.last().usage.completion_tokens
    }
}

/// The usage of a whole turn, whether or not anybody watches it: the output of every reply that
/// asked for tools and of the answer, and the input of the answer.
pub proof fn law_turns_add_up_their_usage(
    messages: Seq<MessageModel>,
    rounds: Seq<Round>,
    last: Usage,
)
    requires
        forall|i: int|
            0 <= i < rounds.len() ==> addable(
                (#[trigger] played(messages, rounds.take(i))).usage,
                rounds[i].usage,
            ),
        addable(played(messages, rounds).usage, last),
    ensures
        ({
            let usage = with_round(played(messages, rounds).usage, last);
            &&& usage.completion_tokens == output_of(rounds) + last.completion_tokens
            &&& usage.prompt_tokens == last.prompt_tokens
            &&& usage.cached_tokens == last.cached_tokens
            &&& usage.total_tokens == usage.prompt_tokens + usage.completion_tokens
        }),
{
    lemma_output(messages, rounds);
}

proof fn lemma_output(messages: Seq<MessageModel>, rounds: Seq<Round>)
    requires
        forall|i: int|
            0 <= i < rounds.len() ==> addable(
                (#[trigger] played(messages, rounds.take(i))).usage,
                rounds[i].usage,
            ),
    ensures
        played(messages, rounds).usage.completion_tokens == output_of(rounds),
    decreases rounds.len(),
{
    if rounds.len() > 0 {
        let before = rounds.drop_last();
        assert forall|i: int| 0 <= i < before.len() implies addable(
            (#[trigger] played(messages, before.take(i))).usage,
            before[i].usage,
        ) by {
            assert(before.take(i) =~= rounds.take(i));
            assert(before[i] == rounds[i]);
        }
        lemma_output(messages, before);
        assert(rounds.take(rounds.len() - 1) =~= before);
        assert(addable(
            played(messages, rounds.take(rounds.len() - 1)).usage,
            rounds[rounds.len() - 1].usage,
        ));
    }
}

/// Usage over a turn: the output of every reply counts, and the input of the last one does.
pub proof fn law_usage_adds_up(total: Usage, first: Usage, second: Usage)
    requires
        addable(total, first),
        addable(with_round(total, first), second),
    ensures
        ({
            let after = with_round(with_round(total, first), second);
            &&& after.completion_tokens == total.completion_tokens + first.completion_tokens
                + second.completion_tokens
            &&& after.prompt_tokens == second.prompt_tokens
            &&& after.cached_tokens == second.cached_tokens
            &&& after.total_tokens == after.prompt_tokens + after.completion_tokens
        }),
{
}

// ---------------------------------------------------------------------------------------------
// Answers
// ---------------------------------------------------------------------------------------------

/// What the model is told where the user did not let a tool run.
pub const DECLINED: &'static str = "The user declined to run this command.";

/// What the model is told where a call is not run at all.
pub open spec fn canned(decision: Decision) -> Option<Seq<char>> {
    match decision {
        Decision::Held => Some(
            "Plan Mode is active \u{2014} propose a plan with update_plan and wait for approval before mutating tools."@,
        ),
        Decision::SearchUnavailable => Some(
            "Error: this profile has no embedding_model configured; search_code is unavailable"@,
        ),
        Decision::NobodyToAsk => Some(
            "There is no user to ask in non-interactive mode. Proceed using your best judgment, or state your assumption in the final answer."@,
        ),
        Decision::Denied => Some(
            "The user declined to run this command (non-interactive mode)."@,
        ),
        _ => None,
    }
}

/// What the model is told where a call is not run at all; nothing where somebody has to act.
pub fn answer_without_running(decision: Decision) -> (r: Option<String>)
    ensures
        text::opt_view(r) == canned(decision),
{
    match decision {
        Decision::Held => Some(
            "Plan Mode is active \u{2014} propose a plan with update_plan and wait for approval before mutating tools.".to_owned(),
        ),
        Decision::SearchUnavailable => Some(
            "Error: this profile has no embedding_model configured; search_code is unavailable".to_owned(),
        ),
        Decision::NobodyToAsk => Some(
            "There is no user to ask in non-interactive mode. Proceed using your best judgment, or state your assumption in the final answer.".to_owned(),
        ),
        Decision::Denied => Some(
            "The user declined to run this command (non-interactive mode).".to_owned(),
        ),
        _ => None,
    }
}

/// An image goes with the answer.
pub open spec fn shows_image(name: Seq<char>, output: Seq<char>) -> bool {
    name == "read_image"@ && !scan::has_prefix(output, "Error: "@)
}

/// Whether an image goes with the answer: the tool reads images and did not fail.
pub fn visual_follows(name: &str, output: &str) -> (r: bool)
    ensures
        r == shows_image(name@, output@),
{
    same(name, "read_image") && !starts_with(output, "Error: ")
}

/// The message that stands in for an image that could not be read.
pub fn failed_visual(error: &str) -> (r: Message)
    ensures
        r@ == provider::plain(Role::User, "Image attachment failed: "@ + error@),
{
    let words = cat("Image attachment failed: ", error);
    Message::user(words.as_str())
}

/// The image that a tool showed, as a message.
pub fn visual_message(call_id: &str, metadata: &str, image: ImageAttachment) -> (r: Message)
    ensures
        r@ == (MessageModel {
            images: seq![image@],
            ..provider::plain(
                Role::User,
                "Visual input returned by read_image tool call "@ + call_id@ + ":\n"@ + metadata@,
            )
        }),
{
    let mut words = cat3("Visual input returned by read_image tool call ", call_id, ":\n");
    words.append(metadata);
    let ghost model = image@;
    let mut images: Vec<ImageAttachment> = Vec::new();
    images.push(image);
    assert(text::views(images@) =~= seq![model]);
    Message::user_with_images(words.as_str(), images)
}

/// The request for a title of a conversation.
pub open spec fn title_request(source: Seq<char>, answer: Seq<char>) -> Seq<MessageModel> {
    seq![
        provider::plain(
            Role::System,
            "Create a concise title of at most 6 words for this conversation. Return only the title without quotes or punctuation."@,
        ),
        provider::plain(Role::User, source),
        provider::plain(Role::Assistant, answer),
    ]
}

/// The request for a title of a conversation.
pub fn title_messages(source: &str, answer: &str) -> (r: Vec<Message>)
    ensures
        text::views(r@) == title_request(source@, answer@),
{
    let mut out: Vec<Message> = Vec::new();
    out.push(
        Message::system(
            "Create a concise title of at most 6 words for this conversation. Return only the title without quotes or punctuation.",
        ),
    );
    out.push(Message::user(source));
    out.push(Message::assistant(answer));
    assert(text::views(out@) =~= title_request(source@, answer@));
    out
}

// ---------------------------------------------------------------------------------------------
// Tools that are offered
// ---------------------------------------------------------------------------------------------

/// The tools that a profile offers: none where it has none, and semantic search only where it has
/// a model for it.
pub open spec fn roster(
    enabled: bool,
    definitions: Seq<DefinitionModel>,
    embedding: bool,
    search: DefinitionModel,
) -> Seq<DefinitionModel> {
    if !enabled {
        seq![]
    } else if embedding {
        definitions.push(search)
    } else {
        definitions
    }
}

/// The tools that a profile offers.
pub fn offered_tools(
    enabled: bool,
    definitions: Vec<ToolDefinition>,
    embedding: bool,
    search: ToolDefinition,
) -> (r: Vec<ToolDefinition>)
    ensures
        text::views(r@) == roster(enabled, text::views(definitions@), embedding, search@),
{
    if !enabled {
        let none: Vec<ToolDefinition> = Vec::new();
        assert(text::views(none@) =~= seq![]);
        return none;
    }
    let mut offered = definitions;
    if embedding {
        offered.push(search);
    }
    offered
}

// ---------------------------------------------------------------------------------------------
// Sub-agents
// ---------------------------------------------------------------------------------------------

/// The call asks for a sub-agent.
pub open spec fn spawns() -> spec_fn(CallModel) -> bool {
    |call: CallModel| call.name == SPAWN_AGENT_TOOL@
}

/// The calls that ask for a sub-agent, in order.
pub fn spawn_calls(calls: &[ToolCall]) -> (r: Vec<ToolCall>)
    ensures
        text::views(r@) == text::views(calls@).filter(spawns()),
{
    let ghost all = text::views(calls@);
    let mut out: Vec<ToolCall> = Vec::new();
    let mut i: usize = 0;
    assert(all.take(0) =~= seq![]);
    proof {
        reveal(Seq::filter);
    }
    assert(text::views(out@) =~= all.take(0).filter(spawns()));
    while i < calls.len()
        invariant
            i <= calls.len(),
            all == text::views(calls@),
            text::views(out@) == all.take(i as int).filter(spawns()),
        decreases calls.len() - i,
    {
        proof {
            reveal(Seq::filter);
            assert(all.take(i + 1).drop_last() =~= all.take(i as int));
            assert(all.take(i + 1).last() == calls@[i as int]@);
        }
        if same(calls[i].name.as_str(), SPAWN_AGENT_TOOL) {
            out.push(calls[i].copy());
        }
        i += 1;
    }
    assert(all.take(i as int) =~= all);
    out
}

/// The batches that some sub-agents run in, none larger than the limit.
pub fn sub_agent_batches(n: usize) -> (r: Vec<(usize, usize)>)
    ensures
        batch::bounds(r@) == batch::ranges(n as nat, MAX_CONCURRENT_SUB_AGENTS as nat),
{
    batch::split_range(n, MAX_CONCURRENT_SUB_AGENTS)
}

/// The id under which the provider knows the session of a sub-agent.
pub open spec fn sub_session(parent: Option<Seq<char>>, call: Seq<char>) -> Option<Seq<char>> {
    match parent {
        Some(id) => Some(id + ":agent:"@ + call),
        None => None,
    }
}

/// The id under which the provider knows the session of a sub-agent: its own, so that it does not
/// take the place of the conversation that asked for it.
pub fn sub_agent_session_id(parent: Option<&str>, call_id: &str) -> (r: Option<String>)
    ensures
        text::opt_view(r) == sub_session(text::str_view(parent), call_id@),
{
    match parent {
        Some(id) => Some(cat3(id, ":agent:", call_id)),
        None => None,
    }
}

/// What the sub-agent of a call answered: the last answer under its id.
pub open spec fn spawned(outputs: Seq<(String, String)>, id: Seq<char>) -> Option<Seq<char>>
    decreases outputs.len(),
{
    if outputs.len() == 0 {
        None
    } else if outputs.last().0@ == id {
        Some(outputs.last().1@)
    } else {
        spawned(outputs.drop_last(), id)
    }
}

/// What the model is told of the sub-agent of a call.
pub fn spawned_output(outputs: &[(String, String)], id: &str) -> (r: String)
    ensures
        r@ == match spawned(outputs@, id@) {
            Some(output) => output,
            None => "Error: sub-agent result was missing"@,
        },
{
    let mut i: usize = outputs.len();
    assert(outputs@.take(i as int) =~= outputs@);
    while i > 0
        invariant
            i <= outputs.len(),
            spawned(outputs@, id@) == spawned(outputs@.take(i as int), id@),
        decreases i,
    {
        assert(outputs@.take(i as int).drop_last() =~= outputs@.take(i - 1));
        assert(outputs@.take(i as int).last() == outputs@[i - 1]);
        i -= 1;
        if same(outputs[i].0.as_str(), id) {
            return outputs[i].1.clone();
        }
    }
    "Error: sub-agent result was missing".to_owned()
}

/// A sub-agent begins with its own system prompt and the given one, and nothing of the
/// conversation that asked for it. A blank prompt is refused.
pub fn begin_sub_agent(system: &str, prompt: &str) -> (r: Result<Turn, ToolError<String>>)
    ensures
        match r {
            Ok(turn) => !scan::blank(prompt@) && turn@.wf() && turn@ == begun(
                seq![provider::plain(Role::System, system@), provider::plain(Role::User, prompt@)],
            ),
            Err(error) => scan::blank(prompt@) && error@ == (ToolError::Empty {
                tool: SPAWN_AGENT_TOOL@,
                key: "prompt"@,
            }),
        },
{
    if is_blank(prompt) {
        return Err(
            ToolError::Empty { tool: SPAWN_AGENT_TOOL.to_owned(), key: "prompt".to_owned() },
        );
    }
    let mut head: Vec<Message> = Vec::new();
    head.push(Message::system(system));
    let none: Vec<Message> = Vec::new();
    let turn = Turn::new(&head, &none, Vec::new(), Message::user(prompt));
    assert(turn@.messages =~= seq![
        provider::plain(Role::System, system@),
        provider::plain(Role::User, prompt@),
    ]);
    Ok(turn)
}

// ---------------------------------------------------------------------------------------------
// What a request holds
// ---------------------------------------------------------------------------------------------

/// A system message that says just this.
pub open spec fn instructs(message: MessageModel, words: Seq<char>) -> bool {
    &&& message.role == Role::System
    &&& message.content == words
    &&& message.images.len() == 0
    &&& message.tool_calls.len() == 0
    &&& message.tool_call_id is None
}

/// The front of a request is the system prompt as it is, then the list of skills as it is, where
/// there is one.
pub proof fn law_heads_hold_prompt_and_skills(base: Seq<char>, skills: Seq<char>)
    ensures
        head_of(base, None).len() == 1,
        instructs(head_of(base, None)[0], base),
        head_of(base, Some(skills)).len() == if skills.len() == 0 {
            1int
        } else {
            2
        },
        instructs(head_of(base, Some(skills))[0], base),
        skills.len() > 0 ==> instructs(head_of(base, Some(skills))[1], skills),
{
}

/// What is remembered comes before what was summed up, each as it is and only where there is any.
pub proof fn law_tails_hold_memory_and_summary(memory: Seq<char>, summary: Seq<char>)
    ensures
        ({
            let plain = tail_of(memory, None);
            let more = tail_of(memory, Some(summary));
            &&& plain.len() == if memory.len() > 0 {
                1int
            } else {
                0
            }
            &&& memory.len() > 0 ==> instructs(plain[0], memory) && instructs(more[0], memory)
            &&& more.len() == plain.len() + 1
            &&& instructs(more.last(), summary)
        }),
{
}

/// Every remembered fact is told, each on a line of its own and unchanged; where there is none,
/// nothing is said, and one fact more only adds to what was told before.
pub proof fn law_every_fact_is_told(entries: Seq<MemoryEntry>, i: int)
    requires
        0 <= i < entries.len(),
    ensures
        text::stands_in(memory_snapshot(entries), "\n- "@ + entries[i].content@),
        memory_snapshot(entries).len() > 0,
        memory_snapshot(entries.take(0)).len() == 0,
        i > 0 ==> memory_snapshot(entries.take(i)).is_prefix_of(memory_snapshot(entries)),
    decreases entries.len(),
{
    reveal_strlit("\n- ");
    let none: Seq<char> = seq![];
    let front = entries.drop_last();
    let last = "\n- "@ + entries.last().content@;
    assert(memory_text(entries) =~= memory_text(front) + last + none);
    if i == front.len() {
        text::lemma_stands_between(memory_text(front), last, none);
        assert(entries.take(i) =~= front);
    } else {
        law_every_fact_is_told(front, i);
        text::lemma_stands_deeper(
            memory_text(entries),
            none,
            memory_text(front),
            last,
            "\n- "@ + entries[i].content@,
        );
        assert(memory_text(entries) =~= none + memory_text(front) + last);
        assert(front.take(i) =~= entries.take(i));
        assert(front[i] == entries[i]);
    }
}

/// A request is the front, all that was said before, the back and the prompt, in that order, and the
/// prompt comes last.
pub proof fn law_requests_hold_everything(
    head: Seq<MessageModel>,
    history: Seq<MessageModel>,
    tail: Seq<MessageModel>,
    prompt: MessageModel,
)
    ensures
        ({
            let all = opening(head, history, tail, prompt);
            let h = head.len() as int;
            let p = h + history.len();
            let t = p + tail.len();
            &&& all.len() == t + 1
            &&& all.subrange(0, h) == head
            &&& all.subrange(h, p) == history
            &&& all.subrange(p, t) == tail
            &&& all.last() == prompt
            &&& begun(all).messages == all
            &&& begun(all).trail.len() == 0
            &&& begun(all).open_calls.len() == 0
        }),
{
}

/// A request for tools carries the words that came with it and every call, as the assistant's.
pub proof fn law_tool_requests_keep_their_words(content: Seq<char>, calls: Seq<CallModel>)
    ensures
        request_of(content, calls).role == Role::Assistant,
        request_of(content, calls).content == content,
        request_of(content, calls).tool_calls == calls,
        request_of(content, calls).tool_call_id is None,
        request_of(content, calls).images.len() == 0,
{
}

/// What the model is to see besides the answers is shown, all of it and in order: of two lists of
/// answers, that of the first and then that of the second; of one answer, what it brings.
pub proof fn law_everything_to_see_is_shown(first: Seq<Answer>, second: Seq<Answer>, answer: Answer)
    ensures
        visuals(first + second) == visuals(first) + visuals(second),
        answer.visual matches Some(message) ==> visuals(seq![answer]) == seq![message@],
        answer.visual is None ==> visuals(seq![answer]).len() == 0,
    decreases second.len(),
{
    reveal_with_fuel(visuals, 2);
    assert(seq![answer].drop_last() =~= seq![]);
    if second.len() == 0 {
        assert(first + second =~= first);
        assert(visuals(first) + visuals(second) =~= visuals(first));
    } else {
        law_everything_to_see_is_shown(first, second.drop_last(), answer);
        assert((first + second).drop_last() =~= first + second.drop_last());
        assert((first + second).last() == second.last());
        assert(visuals(first + second) =~= visuals(first) + visuals(second));
    }
    if let Some(message) = answer.visual {
        assert(visuals(seq![answer]) =~= seq![message@]);
    }
}

/// A reply is taken in: its words are the last that were said, its reason and the usage are those of
/// the turn, and its calls are open until they are answered. A reply without calls sends nothing
/// more; one with calls is sent back with the answers. No other part of the turn changes.
pub proof fn law_replies_are_taken_in(
    turn: TurnModel,
    content: Seq<char>,
    usage: Usage,
    finish_reason: Seq<char>,
    calls: Seq<CallModel>,
    answers: Seq<Answer>,
)
    requires
        turn.open_calls.len() == 0,
        answers.len() == calls.len(),
    ensures
        ({
            let after = received(turn, content, usage, finish_reason, calls);
            let done = answered(after, answers);
            &&& after.last_content == content
            &&& after.usage == usage
            &&& after.finish_reason == finish_reason
            &&& after.round == turn.round
            &&& after.open_calls == calls
            &&& calls.len() == 0 ==> after.messages == turn.messages && after.trail == turn.trail
            &&& calls.len() > 0 ==> after.messages.len() == turn.messages.len() + 1
                && after.trail.last() == after.messages.last() && after.messages.last().content
                == content && after.messages.last().tool_calls == calls
            &&& done.open_calls.len() == 0
            &&& done.last_content == content
            &&& done.usage == usage
            &&& done.round == turn.round
            &&& done.messages.len() >= after.messages.len() + calls.len()
            &&& forall|i: int|
                0 <= i < calls.len() ==> (#[trigger] done.messages[after.messages.len() + i]).content
                    == answers[i].output@ && done.messages[after.messages.len() + i].tool_call_id
                    == Some(calls[i].id)
        }),
{
    let after = received(turn, content, usage, finish_reason, calls);
    let done = answered(after, answers);
    if calls.len() == 0 {
        assert(calls =~= turn.open_calls);
    }
    let added = results(after.open_calls, answers) + visuals(answers);
    assert(done.messages == after.messages + added);
}

/// Where the limit of rounds stops a turn, what the model last said is the answer, unchanged; only
/// where it said nothing does a note stand in its place.
pub proof fn law_stopping_keeps_the_last_words(last_content: Seq<char>)
    ensures
        stopped(last_content).role == Role::Assistant,
        last_content.len() > 0 ==> stopped(last_content).content == last_content,
        stopped(last_content).content.len() > 0,
        stopped(last_content).tool_calls.len() == 0,
{
    reveal_strlit("(stopped: reached the tool-call round limit)");
}

/// Every tool is offered, in order, and the search besides where there is an index; none at all
/// where tools are off.
pub proof fn law_every_tool_is_offered(
    definitions: Seq<DefinitionModel>,
    embedding: bool,
    search: DefinitionModel,
)
    ensures
        definitions.is_prefix_of(roster(true, definitions, embedding, search)),
        embedding ==> roster(true, definitions, embedding, search).last() == search,
        roster(true, definitions, embedding, search).len() == definitions.len() + if embedding {
            1int
        } else {
            0
        },
        roster(false, definitions, embedding, search).len() == 0,
{
}

/// Whatever a sub-agent came back with under a call's id is found: nothing where no output has the
/// id, and otherwise the last that has it.
pub proof fn law_spawned_outputs_are_found(outputs: Seq<(String, String)>, id: Seq<char>)
    ensures
        match spawned(outputs, id) {
            Some(output) => exists|i: int|
                0 <= i < outputs.len() && (#[trigger] outputs[i]).0@ == id && outputs[i].1@
                    == output && (forall|k: int|
                    i < k < outputs.len() ==> (#[trigger] outputs[k]).0@ != id),
            None => forall|i: int| 0 <= i < outputs.len() ==> (#[trigger] outputs[i]).0@ != id,
        },
    decreases outputs.len(),
{
    if outputs.len() > 0 {
        let front = outputs.drop_last();
        if outputs.last().0@ == id {
            let n = outputs.len() - 1;
            assert(outputs[n].0@ == id && outputs[n].1@ == outputs.last().1@);
        } else {
            law_spawned_outputs_are_found(front, id);
            match spawned(front, id) {
                Some(output) => {
                    let i = choose|i: int|
                        0 <= i < front.len() && (#[trigger] front[i]).0@ == id && front[i].1@
                            == output && (forall|k: int|
                            i < k < front.len() ==> (#[trigger] front[k]).0@ != id);
                    assert(outputs[i] == front[i]);
                    assert forall|k: int| i < k < outputs.len() implies (
                    #[trigger] outputs[k]).0@ != id by {
                        if k < front.len() {
                            assert(outputs[k] == front[k]);
                        }
                    }
                },
                None => {
                    assert forall|i: int| 0 <= i < outputs.len() implies (
                    #[trigger] outputs[i]).0@ != id by {
                        if i < front.len() {
                            assert(outputs[i] == front[i]);
                        }
                    }
                },
            }
        }
    }
}

/// A reply that asks for no tools is the answer, word for word; one that asks for some is none.
pub proof fn law_replies_without_calls_are_answers(content: Seq<char>, calls: Seq<CallModel>)
    ensures
        calls.len() > 0 ==> answer_in(content, calls) is None,
        calls.len() == 0 ==> (answer_in(content, calls) matches Some(answer) && answer.content
            == content && answer.role == Role::Assistant && answer.tool_calls.len() == 0
            && answer.images.len() == 0),
{
}

/// A title is asked for with what was said, both sides of it and all of it.
pub proof fn law_titles_are_asked_with_what_was_said(source: Seq<char>, answer: Seq<char>)
    ensures
        title_request(source, answer).len() == 3,
        title_request(source, answer)[0].role == Role::System,
        title_request(source, answer)[1].role == Role::User,
        title_request(source, answer)[1].content == source,
        title_request(source, answer)[2].role == Role::Assistant,
        title_request(source, answer)[2].content == answer,
{
}

/// The session of a sub-agent bears its parent's id and that of its call, so that no two calls of one
/// session share one; without a parent there is none.
pub proof fn law_sub_sessions_are_told_apart(parent: Seq<char>, call: Seq<char>, other: Seq<char>)
    requires
        call != other,
    ensures
        sub_session(Some(parent), call) matches Some(id) && parent.is_prefix_of(id)
            && call.is_suffix_of(id),
        sub_session(Some(parent), call) != sub_session(Some(parent), other),
        sub_session(None, call) is None,
{
    let a = parent + ":agent:"@ + call;
    let b = parent + ":agent:"@ + other;
    assert(call =~= a.skip(a.len() - call.len()));
    assert(other =~= b.skip(b.len() - other.len()));
    if a == b {
        assert(call.len() == other.len());
    }
}

/// Only an image that was read is shown: not what went wrong, and not what another tool gives.
pub proof fn law_only_images_that_were_read_are_shown(name: Seq<char>, words: Seq<char>)
    ensures
        !shows_image("read_image"@, "Error: "@ + words),
        words.len() > 0 && words[0] != 'E' ==> shows_image("read_image"@, words),
        name != "read_image"@ ==> !shows_image(name, words),
{
    reveal_strlit("Error: ");
    assert(("Error: "@ + words).subrange(0, 7) =~= "Error: "@);
    if words.len() > 0 && words[0] != 'E' && scan::has_prefix(words, "Error: "@) {
        assert(words.subrange(0, 7)[0] == words[0]);
    }
}

/// A line that begins with a slash is a command, whatever white space stands before it, and no other
/// line is.
pub proof fn law_a_slash_makes_a_command(line: Seq<char>, space: char)
    requires
        text::is_white(space),
    ensures
        line.len() > 0 && line[0] == '/' ==> is_command_line(line),
        line.len() > 0 && line[0] != '/' && !text::is_white(line[0]) ==> !is_command_line(line),
        is_command_line(seq![space] + line) == is_command_line(line),
{
    reveal_strlit("/");
    let p = scan::white();
    assert("/"@ =~= seq!['/']);
    let more = seq![space] + line;
    assert(more.skip(1) =~= line);
    assert(p(more[0]));
    assert(scan::span(more, p) == 1 + scan::span(line, p));
    scan::lemma_span_bound(line, p);
    assert(scan::trim_front(more, p) =~= scan::trim_front(line, p));
    if line.len() > 0 && !text::is_white(line[0]) {
        assert(!p(line[0]));
        assert(scan::trim_front(line, p) =~= line);
        assert(line.subrange(0, 1) =~= seq![line[0]]);
        if scan::has_prefix(line, "/"@) {
            assert(line.subrange(0, 1)[0] == '/');
        }
    }
}

/// What is not run is answered all the same, and nothing that is run is answered beforehand.
pub proof fn law_what_is_not_run_is_answered(decision: Decision)
    ensures
        canned(decision) is Some <==> decision == Decision::Held || decision
            == Decision::SearchUnavailable || decision == Decision::NobodyToAsk || decision
            == Decision::Denied,
        canned(decision) matches Some(words) ==> words.len() > 0,
{
    reveal_strlit(
        "Plan Mode is active \u{2014} propose a plan with update_plan and wait for approval before mutating tools.",
    );
    reveal_strlit(
        "Error: this profile has no embedding_model configured; search_code is unavailable",
    );
    reveal_strlit(
        "There is no user to ask in non-interactive mode. Proceed using your best judgment, or state your assumption in the final answer.",
    );
    reveal_strlit("The user declined to run this command (non-interactive mode).");
}

/// A turn that nobody watches says who stopped and after how many rounds.
pub proof fn law_stopping_says_who(who: Seq<char>)
    ensures
        who.is_prefix_of(round_limit(who)),
        text::stands_in(round_limit(who), number::decimal(MAX_TOOL_ROUNDS as nat)),
{
    assert(who =~= round_limit(who).take(who.len() as int));
    assert(text::stands_in(round_limit(who), number::decimal(MAX_TOOL_ROUNDS as nat))) by {
        broadcast use text::group_stands;

    }
}

} // verus!
