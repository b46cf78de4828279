//! The state of a conversation, and how commands and turns change it.
use crate::config;
use crate::config::{Config, Profile, Theme};
use crate::mode;
use crate::mode::{Gate, GateModel};
use crate::number;
use crate::number::count;
use crate::provider::{Message, MessageModel};
use crate::revert::Snapshot;
use crate::scan;
use crate::scan::trim;
use crate::sidebar;
use crate::sidebar::cache_reset_note;
use crate::snippet;
use crate::snippet::short_id;
use crate::storage;
use crate::storage::{create_session, title_after_exchange, Session, SessionModel};
use crate::text;
use crate::text::{cat, cat3, same};
use vstd::prelude::*;
use vstd::string::*;

verus! {

broadcast use crate::text::group_views;

// ---------------------------------------------------------------------------------------------
// What a run begins with
// ---------------------------------------------------------------------------------------------

/// The setting that holds the profile that was used last.
pub const ACTIVE_PROFILE_KEY: &'static str = "active_profile";

/// The setting that holds the theme that was used last.
pub const ACTIVE_THEME_KEY: &'static str = "active_theme";

/// The name of the profile to begin with: the one used last, where it is still there, and otherwise
/// the default.
pub open spec fn active_name(config: config::ConfigModel, stored: Option<Seq<char>>) -> Seq<char> {
    match stored {
        Some(name) => if config::is_named(config.profiles, name) {
            name
        } else {
            config.default_profile
        },
        None => config.default_profile,
    }
}

/// The profile to begin with.
pub fn choose_profile(config: &Config, stored: Option<&str>) -> (r: Profile)
    requires
        config@.wf(),
    ensures
        config::find_in(config@.profiles, active_name(config@, text::str_view(stored))) == Some(r@),
{
    if let Some(name) = stored {
        if let Some(profile) = config.find(name) {
            return profile.copy();
        }
    }
    config.default().copy()
}

/// The theme to begin with: the one used last, where it is known, and otherwise the configured one.
pub fn choose_theme(configured: Theme, stored: Option<&str>) -> (r: Theme)
    ensures
        r == match stored {
            Some(name) => match Theme::parse_spec(name@) {
                Some(theme) => theme,
                None => configured,
            },
            None => configured,
        },
{
    if let Some(name) = stored {
        if let Some(theme) = Theme::parse(name) {
            return theme;
        }
    }
    configured
}

// ---------------------------------------------------------------------------------------------
// Finding a session
// ---------------------------------------------------------------------------------------------

/// Why a session cannot be used. `T` is text: `String` in a value, `Seq<char>` in its model.
#[derive(Debug)]
pub enum SessionError<T> {
    /// No id was given.
    NoId,
    /// No session, or more than one, has an id that begins so.
    NotFound { prefix: T },
    /// The session belongs to another provider.
    OtherProvider { provider: T, active: T },
}

impl View for SessionError<String> {
    type V = SessionError<Seq<char>>;

    open spec fn view(&self) -> SessionError<Seq<char>> {
        match self {
            SessionError::NoId => SessionError::NoId,
            SessionError::NotFound { prefix } => SessionError::NotFound { prefix: prefix@ },
            SessionError::OtherProvider { provider, active } => SessionError::OtherProvider {
                provider: provider@,
                active: active@,
            },
        }
    }
}

impl SessionError<Seq<char>> {
    /// What the user reads.
    pub open spec fn words(self) -> Seq<char> {
        match self {
            SessionError::NoId => "a session ID is required"@,
            SessionError::NotFound { prefix } => "session '"@ + prefix
                + "' was not found or is ambiguous"@,
            SessionError::OtherProvider { provider, active } => "session uses provider '"@
                + provider + "', but '"@ + active + "' is active"@,
        }
    }
}

impl SessionError<String> {
    /// What the user reads.
    pub fn message(&self) -> (r: String)
        ensures
            r@ == self@.words(),
    {
        match self {
            SessionError::NoId => "a session ID is required".to_owned(),
            SessionError::NotFound { prefix } => cat3(
                "session '",
                prefix.as_str(),
                "' was not found or is ambiguous",
            ),
            SessionError::OtherProvider { provider, active } => {
                let mut out = cat3("session uses provider '", provider.as_str(), "', but '");
                out.append(active.as_str());
                out.append("' is active");
                out
            },
        }
    }
}

/// The session whose id begins with a text. `found` is the one that the store found, if any.
pub open spec fn session_for(prefix: Seq<char>, found: Option<SessionModel>) -> Result<
    SessionModel,
    SessionError<Seq<char>>,
> {
    if prefix.len() == 0 {
        Err(SessionError::NoId)
    } else {
        match found {
            Some(session) => Ok(session),
            None => Err(SessionError::NotFound { prefix }),
        }
    }
}

/// The model of what finding a session gives back.
pub open spec fn outcome(r: Result<Session, SessionError<String>>) -> Result<
    SessionModel,
    SessionError<Seq<char>>,
> {
    match r {
        Ok(session) => Ok(session@),
        Err(error) => Err(error@),
    }
}

/// The session whose id begins with a text.
pub fn resolve_session(id_prefix: &str, found: Option<Session>) -> (r: Result<
    Session,
    SessionError<String>,
>)
    ensures
        outcome(r) == session_for(id_prefix@, text::opt_view(found)),
{
    if id_prefix.is_empty() {
        return Err(SessionError::NoId);
    }
    match found {
        Some(session) => Ok(session),
        None => Err(SessionError::NotFound { prefix: id_prefix.to_owned() }),
    }
}

/// The session to resume: it must belong to the provider that is active.
pub open spec fn resumable(prefix: Seq<char>, found: Option<SessionModel>, provider: Seq<char>) -> Result<
    SessionModel,
    SessionError<Seq<char>>,
> {
    match session_for(prefix, found) {
        Ok(session) => if session.provider == provider {
            Ok(session)
        } else {
            Err(
                SessionError::OtherProvider { provider: session.provider, active: provider },
            )
        },
        Err(error) => Err(error),
    }
}

/// The session to resume: it must belong to the provider that is active.
pub fn session_to_resume(id_prefix: &str, found: Option<Session>, provider: &str) -> (r: Result<
    Session,
    SessionError<String>,
>)
    ensures
        outcome(r) == resumable(id_prefix@, text::opt_view(found), provider@),
{
    match resolve_session(id_prefix, found) {
        Ok(session) => {
            if same(session.provider.as_str(), provider) {
                Ok(session)
            } else {
                Err(
                    SessionError::OtherProvider {
                        provider: session.provider,
                        active: provider.to_owned(),
                    },
                )
            }
        },
        Err(error) => Err(error),
    }
}

// ---------------------------------------------------------------------------------------------
// The conversation
// ---------------------------------------------------------------------------------------------

/// What has to be made anew before the next request.
#[derive(Clone, Copy, Debug, PartialEq, Eq, Structural)]
pub struct Stale {
    pub tools: bool,
    /// The part of a request that stays the same from turn to turn.
    pub head: bool,
    pub memory: bool,
}

/// A conversation.
#[derive(Debug)]
pub struct Conversation {
    pub session: Option<Session>,
    pub messages: Vec<Message>,
    pub gate: Gate,
    /// What files were before the last turn, where it changed any.
    pub snapshot: Option<Snapshot>,
    /// The summary of the first messages.
    pub summary: Option<String>,
    /// How many messages the summary stands for.
    pub summarized: usize,
    pub stale: Stale,
}

/// What a [`Conversation`] stands for.
#[verifier::ext_equal]
pub struct ConversationModel {
    pub session: Option<SessionModel>,
    pub messages: Seq<MessageModel>,
    pub gate: GateModel,
    pub snapshot: Option<Map<Seq<char>, Option<Seq<char>>>>,
    pub summary: Option<Seq<char>>,
    pub summarized: int,
    pub stale: Stale,
}

impl View for Conversation {
    type V = ConversationModel;

    open spec fn view(&self) -> ConversationModel {
        ConversationModel {
            session: text::opt_view(self.session),
            messages: text::views(self.messages@),
            gate: self.gate@,
            snapshot: text::opt_view(self.snapshot),
            summary: text::opt_view(self.summary),
            summarized: self.summarized as int,
            stale: self.stale,
        }
    }
}

impl ConversationModel {
    /// Its gate is consistent, and no more messages are summed up than there are.
    pub open spec fn wf(self) -> bool {
        &&& self.gate.wf()
        &&& 0 <= self.summarized <= self.messages.len()
    }

    /// The id of the session, where there is one.
    pub open spec fn id(self) -> Option<Seq<char>> {
        match self.session {
            Some(session) => Some(session.id),
            None => None,
        }
    }
}

/// Everything is to be made anew.
pub open spec fn all_stale() -> Stale {
    Stale { tools: true, head: true, memory: true }
}

/// A conversation that nothing was said in.
pub open spec fn opened(auto_approve: bool) -> ConversationModel {
    ConversationModel {
        session: None,
        messages: seq![],
        gate: mode::opened(auto_approve),
        snapshot: None,
        summary: None,
        summarized: 0,
        stale: all_stale(),
    }
}

/// The conversation after it was left for a new one: no session, no messages, no standing
/// permissions, nothing to undo.
pub open spec fn cleared(c: ConversationModel) -> ConversationModel {
    ConversationModel {
        session: None,
        messages: seq![],
        gate: GateModel { always_allowed: seq![], ..c.gate },
        snapshot: None,
        ..c
    }
}

/// What a command found before it ran.
#[derive(Debug)]
pub struct Mark {
    pub id: Option<String>,
    pub messages: usize,
}

/// What the conversation becomes once a command has run. Another session brings its own plan, and
/// no session none. Where the session is another or the number of messages changed, the messages
/// are others, and the summary is not theirs.
pub open spec fn settled(
    c: ConversationModel,
    id: Option<Seq<char>>,
    messages: int,
    stored: Option<(Seq<char>, Seq<char>)>,
) -> ConversationModel {
    let moved = c.id() != id;
    let gate = if !moved {
        c.gate
    } else if c.session is Some {
        mode::with_plan(c.gate, mode::stored_plan(stored))
    } else {
        GateModel { plan: None, plan_requested: false, ..c.gate }
    };
    let stale = if moved {
        all_stale()
    } else {
        c.stale
    };
    if moved || c.messages.len() != messages {
        ConversationModel { gate, stale, summary: None, summarized: 0, ..c }
    } else {
        ConversationModel { gate, stale, ..c }
    }
}

/// Why earlier messages would be summed up.
#[derive(Clone, Copy, Debug, PartialEq, Eq, Structural)]
pub enum Trigger {
    /// The user asked for it.
    Command,
    /// A turn begins. `bytes` is what the messages that no summary stands for come to.
    Automatic { bytes: usize, threshold: usize },
}

/// What is done about earlier messages.
#[derive(Clone, Copy, Debug, PartialEq, Eq, Structural)]
pub enum CompactionStep {
    /// The model is asked to sum up the messages before this one.
    Ask { upto: usize },
    /// The user is told that there is not enough yet.
    TooShort,
    Nothing,
}

/// What is told where there is not enough to sum up.
pub const NOT_ENOUGH: &'static str = "Not enough history to compact yet.";

/// What is done about earlier messages: on its own account the conversation is summed up only where
/// it outgrew the threshold.
pub open spec fn compaction_step(trigger: Trigger, cutoff: Option<usize>) -> CompactionStep {
    match trigger {
        Trigger::Command => match cutoff {
            Some(upto) => CompactionStep::Ask { upto },
            None => CompactionStep::TooShort,
        },
        Trigger::Automatic { bytes, threshold } => if bytes > threshold && cutoff is Some {
            CompactionStep::Ask { upto: cutoff->0 }
        } else {
            CompactionStep::Nothing
        },
    }
}

/// What the conversation becomes once the model replied with a summary. Where it failed, it stays
/// as it is.
pub open spec fn folded(
    c: ConversationModel,
    upto: int,
    reply: Result<Seq<char>, Seq<char>>,
) -> ConversationModel {
    match reply {
        Ok(summary) => ConversationModel {
            summary: Some(scan::trimmed(summary)),
            summarized: upto,
            ..c
        },
        Err(_) => c,
    }
}

/// What is told after messages were summed up.
pub open spec fn compaction_note(trigger: Trigger, count: nat, cache_pinned: bool) -> Seq<char> {
    let where_to = match trigger {
        Trigger::Command => "the summary"@,
        Trigger::Automatic { .. } => "a running summary"@,
    };
    "Compacted "@ + number::decimal(count) + " earlier messages into "@ + where_to + "."@
        + sidebar::reset_note(cache_pinned)
}

/// What is told where no summary could be had.
pub open spec fn compaction_failure(trigger: Trigger, error: Seq<char>, tui: bool) -> Seq<char> {
    match trigger {
        Trigger::Command => if tui {
            "Compaction failed: "@ + error
        } else {
            "Compaction failed: "@ + error + "\n"@
        },
        Trigger::Automatic { .. } => if tui {
            "Could not compact history: "@ + error
        } else {
            "(could not compact history: "@ + error + ")\n"@
        },
    }
}

/// What is told of a new chat.
pub const NEW_CHAT: &'static str = "Started a new chat. It will be saved after the first response.\n";

/// A turn is over.
pub open spec fn finished(
    c: ConversationModel,
    record: Seq<MessageModel>,
    snapshot: Snapshot,
    title_source: Seq<char>,
) -> ConversationModel {
    ConversationModel {
        session: match c.session {
            Some(session) => Some(
                SessionModel {
                    title: storage::title_after(session.title, title_source),
                    ..session
                },
            ),
            None => None,
        },
        messages: c.messages + record,
        snapshot: if snapshot.files.entries@.len() == 0 {
            None
        } else {
            Some(snapshot@)
        },
        ..c
    }
}

impl Conversation {
    /// A conversation that nothing was said in.
    pub fn new(auto_approve: bool) -> (r: Conversation)
        ensures
            r@ == opened(auto_approve),
            r@.wf(),
    {
        let conversation = Conversation {
            session: None,
            messages: Vec::new(),
            gate: Gate::new(auto_approve),
            snapshot: None,
            summary: None,
            summarized: 0,
            stale: Stale { tools: true, head: true, memory: true },
        };
        assert(conversation@.messages =~= seq![]);
        conversation
    }

    /// Where the conversation stands before a command.
    pub fn mark(&self) -> (r: Mark)
        ensures
            text::opt_view(r.id) == self@.id(),
            r.messages == self@.messages.len(),
    {
        let id = match &self.session {
            Some(session) => Some(session.id.clone()),
            None => None,
        };
        Mark { id, messages: self.messages.len() }
    }

    /// `/new`: leave everything behind.
    pub fn clear(&mut self) -> (r: &'static str)
        ensures
            final(self)@ == cleared(old(self)@),
            old(self)@.gate.wf() ==> final(self)@.gate.wf(),
            r@ == NEW_CHAT@,
    {
        self.session = None;
        self.messages = Vec::new();
        self.gate.clear_allowed();
        self.snapshot = None;
        assert(self@.messages =~= seq![]);
        NEW_CHAT
    }

    /// `/resume`: go on with a session.
    pub fn resume(&mut self, session: Session, messages: Vec<Message>) -> (r: String)
        ensures
            final(self)@ == (ConversationModel {
                session: Some(session@),
                messages: text::views(messages@),
                ..old(self)@
            }),
            r@ == "Resumed: "@ + session.title@ + " ("@ + snippet::short(session.id@) + ")\n"@,
    {
        let short = short_id(session.id.as_str());
        let mut out = cat3("Resumed: ", session.title.as_str(), " (");
        out.append(short.as_str());
        out.append(")\n");
        self.messages = messages;
        self.session = Some(session);
        out
    }

    /// `/delete`: the session of the id is gone. Where it was this one, everything is left behind.
    pub fn deleted(&mut self, target: &Session) -> (r: String)
        ensures
            final(self)@ == if old(self)@.id() == Some(target.id@) {
                cleared(old(self)@)
            } else {
                old(self)@
            },
            r@ == "Deleted: "@ + target.title@ + "\n"@ + if old(self)@.id() == Some(target.id@) {
                NEW_CHAT@
            } else {
                seq![]
            },
    {
        let mut out = cat3("Deleted: ", target.title.as_str(), "\n");
        let own = match &self.session {
            Some(session) => same(session.id.as_str(), target.id.as_str()),
            None => false,
        };
        if own {
            let note = self.clear();
            out.append(note);
        } else {
            assert(out@ + seq![] =~= out@);
        }
        out
    }

    /// `/rename`: the session of the id has a new title.
    pub fn renamed(&mut self, target: &Session, title: &str) -> (r: String)
        ensures
            final(self)@ == (if old(self)@.id() == Some(target.id@) {
                ConversationModel {
                    session: Some(SessionModel { title: title@, ..old(self)@.session->0 }),
                    ..old(self)@
                }
            } else {
                old(self)@
            }),
            r@ == "Renamed "@ + snippet::short(target.id@) + " to: "@ + title@ + "\n"@,
    {
        let own = match &self.session {
            Some(session) => same(session.id.as_str(), target.id.as_str()),
            None => false,
        };
        if own {
            let taken = self.session.take();
            if let Some(session) = taken {
                self.session = Some(
                    Session {
                        id: session.id,
                        title: title.to_owned(),
                        provider: session.provider,
                        model: session.model,
                    },
                );
            }
        }
        let short = short_id(target.id.as_str());
        let mut out = cat3("Renamed ", short.as_str(), " to: ");
        out.append(title);
        out.append("\n");
        out
    }

    /// A command has run. `stored` is the plan that is stored of the session that is there now.
    pub fn settle(&mut self, before: &Mark, stored: Option<(String, String)>)
        requires
            old(self)@.gate.wf(),
            before.messages == old(self)@.messages.len() && text::opt_view(before.id) == old(
                self,
            )@.id() ==> old(self)@.wf(),
        ensures
            final(self)@ == settled(
                old(self)@,
                text::opt_view(before.id),
                before.messages as int,
                match stored {
                    Some(pair) => Some((pair.0@, pair.1@)),
                    None => None,
                },
            ),
            final(self)@.wf(),
    {
        let stays = match &self.session {
            Some(session) => match &before.id {
                Some(id) => same(session.id.as_str(), id.as_str()),
                None => false,
            },
            None => before.id.is_none(),
        };
        if !stays {
            if self.session.is_some() {
                self.gate.restore(stored);
            } else {
                self.gate.leave_session();
            }
            self.stale = Stale { tools: true, head: true, memory: true };
        }
        if !stays || self.messages.len() != before.messages {
            self.summary = None;
            self.summarized = 0;
        }
    }

    /// Earlier messages were summed up, up to the given one; says how many they are.
    pub fn compact(&mut self, summary: &str, upto: usize) -> (r: usize)
        requires
            old(self)@.wf(),
            old(self)@.summarized <= upto <= old(self)@.messages.len(),
        ensures
            final(self)@ == (ConversationModel {
                summary: Some(scan::trimmed(summary@)),
                summarized: upto as int,
                ..old(self)@
            }),
            r == upto - old(self)@.summarized,
            final(self)@.wf(),
    {
        let folded = upto - self.summarized;
        self.summary = Some(trim(summary));
        self.summarized = upto;
        folded
    }

    /// What is done about earlier messages. `cutoff` is the message up to which they would be summed
    /// up, where enough of them are there.
    pub fn compaction(&self, trigger: Trigger, cutoff: Option<usize>) -> (r: CompactionStep)
        requires
            self@.wf(),
            cutoff matches Some(upto) ==> self@.summarized <= upto <= self@.messages.len(),
        ensures
            r == compaction_step(trigger, cutoff),
    {
        match trigger {
            Trigger::Command => match cutoff {
                Some(upto) => CompactionStep::Ask { upto },
                None => CompactionStep::TooShort,
            },
            Trigger::Automatic { bytes, threshold } => match cutoff {
                Some(upto) => if bytes > threshold {
                    CompactionStep::Ask { upto }
                } else {
                    CompactionStep::Nothing
                },
                None => CompactionStep::Nothing,
            },
        }
    }

    /// The messages that are summed up, up to the given one.
    pub fn folding(&self, upto: usize) -> (r: &[Message])
        requires
            self@.wf(),
            self@.summarized <= upto <= self@.messages.len(),
        ensures
            text::views(r@) == self@.messages.subrange(self@.summarized, upto as int),
    {
        let all = self.messages.as_slice();
        let part = vstd::slice::slice_subrange(all, self.summarized, upto);
        assert(text::views(part@) =~= self@.messages.subrange(self@.summarized, upto as int));
        part
    }

    /// The model was asked for a summary of the messages up to the given one: takes what it replied,
    /// and gives what is told of it, as a failure where it failed. `tui` tells whether the screen is
    /// the full one.
    pub fn fold(
        &mut self,
        trigger: Trigger,
        upto: usize,
        reply: Result<&str, &str>,
        cache_pinned: bool,
        tui: bool,
    ) -> (r: Result<String, String>)
        requires
            old(self)@.wf(),
            old(self)@.summarized <= upto <= old(self)@.messages.len(),
        ensures
            final(self)@ == folded(
                old(self)@,
                upto as int,
                match reply {
                    Ok(summary) => Ok(summary@),
                    Err(error) => Err(error@),
                },
            ),
            match reply {
                Ok(_) => (r matches Ok(note) && note@ == compaction_note(
                    trigger,
                    (upto - old(self)@.summarized) as nat,
                    cache_pinned,
                )),
                Err(error) => (r matches Err(words) && words@ == compaction_failure(
                    trigger,
                    error@,
                    tui,
                )),
            },
            final(self)@.wf(),
    {
        match reply {
            Ok(summary) => {
                let count = self.compact(summary, upto);
                let where_to = match trigger {
                    Trigger::Command => "the summary",
                    Trigger::Automatic { .. } => "a running summary",
                };
                Ok(compacted_note(count, where_to, cache_pinned))
            },
            Err(error) => {
                let words = match trigger {
                    Trigger::Command => if tui {
                        cat("Compaction failed: ", error)
                    } else {
                        cat3("Compaction failed: ", error, "\n")
                    },
                    Trigger::Automatic { .. } => if tui {
                        cat("Could not compact history: ", error)
                    } else {
                        cat3("(could not compact history: ", error, ")\n")
                    },
                };
                Err(words)
            },
        }
    }

    /// The messages that no summary stands for.
    pub fn recent(&self) -> (r: &[Message])
        requires
            self@.wf(),
        ensures
            text::views(r@) == self@.messages.skip(self@.summarized),
    {
        let all = self.messages.as_slice();
        let part = vstd::slice::slice_subrange(all, self.summarized, all.len());
        assert(text::views(part@) =~= self@.messages.skip(self@.summarized));
        part
    }

    /// The session of the conversation, which is made where the profile wants one and there is none;
    /// says whether it was made.
    pub fn ensure_session(&mut self, wanted: bool, provider: &str, model: &str) -> (r: bool)
        ensures
            r == (wanted && old(self)@.session is None),
            r ==> (final(self)@.session matches Some(session) && session == storage::fresh(
                session.id,
                provider@,
                model@,
            ) && storage::random_form(session.id)),
            !r ==> final(self)@.session == old(self)@.session,
            final(self)@ == (ConversationModel { session: final(self)@.session, ..old(self)@ }),
    {
        if !wanted || self.session.is_some() {
            return false;
        }
        self.session = Some(create_session(provider, model));
        true
    }

    /// A turn is over: what it said is kept, and what files were before it, where it changed any.
    /// The first prompt names the session.
    pub fn finish_turn(&mut self, record: Vec<Message>, snapshot: Snapshot, title_source: &str)
        requires
            old(self)@.wf(),
            snapshot.wf(),
        ensures
            final(self)@ == finished(old(self)@, text::views(record@), snapshot, title_source@),
            final(self)@.wf(),
    {
        let taken = self.session.take();
        self.session = match taken {
            Some(session) => {
                let title = title_after_exchange(session.title.as_str(), title_source);
                Some(
                    Session {
                        id: session.id,
                        title,
                        provider: session.provider,
                        model: session.model,
                    },
                )
            },
            None => None,
        };
        self.snapshot = if snapshot.is_empty() {
            None
        } else {
            Some(snapshot)
        };
        let mut more = record;
        let ghost before = self@.messages;
        let ghost added = text::views(more@);
        self.messages.append(&mut more);
        assert(text::views(self.messages@) =~= before + added);
    }
}

/// A new chat is no session: neither beginning one, nor leaving one, nor what commands and turns do
/// to it makes a session of it. That takes an answer to store, or a session to resume.
pub proof fn law_new_chats_are_not_saved(
    c: ConversationModel,
    auto_approve: bool,
    id: Option<Seq<char>>,
    messages: int,
    stored: Option<(Seq<char>, Seq<char>)>,
    record: Seq<MessageModel>,
    snapshot: Snapshot,
    title_source: Seq<char>,
)
    ensures
        opened(auto_approve).session is None,
        cleared(c).session is None,
        c.session is None ==> settled(c, id, messages, stored).session is None,
        c.session is None ==> finished(c, record, snapshot, title_source).session is None,
{
}

/// A turn adds to the history and takes nothing from it, and only a session that has no name of its
/// own yet is named after the prompt.
pub proof fn law_turns_are_kept(
    c: ConversationModel,
    record: Seq<MessageModel>,
    snapshot: Snapshot,
    title_source: Seq<char>,
)
    requires
        c.wf(),
    ensures
        ({
            let after = finished(c, record, snapshot, title_source);
            &&& after.wf()
            &&& c.messages.is_prefix_of(after.messages)
            &&& after.messages.skip(c.messages.len() as int) == record
            &&& after.id() == c.id()
            &&& (c.session matches Some(session) && session.title != storage::NEW_TITLE@)
                ==> after.session == c.session
        }),
{
    let after = finished(c, record, snapshot, title_source);
    assert(c.messages =~= after.messages.subrange(0, c.messages.len() as int));
    assert(after.messages.skip(c.messages.len() as int) =~= record);
}


/// A new chat shares nothing with the one before: no message of it is sent, no tool is allowed
/// because it was allowed there, no file is brought back, and its plan holds nothing.
pub proof fn law_new_chats_begin_clean(c: ConversationModel, stored: Option<(Seq<char>, Seq<char>)>)
    requires
        c.wf(),
        c.session is Some,
    ensures
        ({
            let after = settled(cleared(c), c.id(), c.messages.len() as int, stored);
            &&& after.session is None
            &&& after.messages == Seq::<MessageModel>::empty()
            &&& after.gate.always_allowed == Seq::<Seq<char>>::empty()
            &&& after.snapshot is None
            &&& after.gate.plan is None
            &&& !after.gate.plan_requested
            &&& after.stale == all_stale()
            &&& after.summary is None
            &&& after.summarized == 0
        }),
{
}

/// A resumed session takes up its own plan, and bypassing approvals ends. No summary of the session
/// before stands for any message of it: all of them are sent.
pub proof fn law_resumed_sessions_bring_their_own(
    c: ConversationModel,
    session: SessionModel,
    messages: Seq<MessageModel>,
    stored: Option<(Seq<char>, Seq<char>)>,
)
    requires
        c.wf(),
        c.id() != Some(session.id),
    ensures
        ({
            let next = ConversationModel { session: Some(session), messages, ..c };
            let after = settled(next, c.id(), c.messages.len() as int, stored);
            &&& after.gate.plan == mode::stored_plan(stored)
            &&& !after.gate.auto_approve
            &&& after.gate.wf()
            &&& after.messages == messages
            &&& after.summary is None
            &&& after.messages.skip(after.summarized) == messages
        }),
{
    assert(messages.skip(0) =~= messages);
}

/// Summing up loses no message: those that the summary newly stands for and those that are still
/// sent are what was sent before, in that order, and all that was said is kept. A failed attempt
/// changes nothing.
pub proof fn law_compaction_loses_nothing(
    c: ConversationModel,
    upto: int,
    reply: Result<Seq<char>, Seq<char>>,
)
    requires
        c.wf(),
        c.summarized <= upto <= c.messages.len(),
    ensures
        ({
            let after = folded(c, upto, reply);
            &&& after.wf()
            &&& after.messages == c.messages
            &&& after.session == c.session
            &&& reply is Ok ==> c.messages.subrange(c.summarized, upto) + after.messages.skip(
                after.summarized,
            ) == c.messages.skip(c.summarized)
            &&& reply is Err ==> after == c
        }),
{
    assert(c.messages.subrange(c.summarized, upto) + c.messages.skip(upto) =~= c.messages.skip(
        c.summarized,
    ));
}

/// What is told after messages were summed up.
fn compacted_note(folded: usize, where_to: &str, cache_pinned: bool) -> (r: String)
    ensures
        r@ == "Compacted "@ + number::decimal(folded as nat) + " earlier messages into "@ + where_to@
            + "."@ + sidebar::reset_note(cache_pinned),
{
    let n = count(folded);
    let mut out = cat3("Compacted ", n.as_str(), " earlier messages into ");
    out.append(where_to);
    out.append(".");
    out.append(cache_reset_note(cache_pinned));
    out
}

// ---------------------------------------------------------------------------------------------
// What a conversation keeps
// ---------------------------------------------------------------------------------------------

/// A turn changes only what a turn is: how the conversation may act, its summary and what has to be
/// found out again stay; what the turn changed on disk can be taken back, and nothing where it changed
/// nothing; a session that has no title yet gets one from the prompt.
pub proof fn law_turns_leave_the_rest(
    c: ConversationModel,
    record: Seq<MessageModel>,
    snapshot: Snapshot,
    title_source: Seq<char>,
)
    ensures
        ({
            let after = finished(c, record, snapshot, title_source);
            &&& after.gate == c.gate
            &&& after.summary == c.summary
            &&& after.summarized == c.summarized
            &&& after.stale == c.stale
            &&& after.session is Some <==> c.session is Some
            &&& c.session matches Some(session) ==> after.session->0.provider == session.provider
                && after.session->0.model == session.model
            &&& (c.session matches Some(session) && session.title == storage::NEW_TITLE@)
                && title_source.len() <= 40 ==> after.session->0.title == title_source
            &&& snapshot.files.entries@.len() > 0 ==> after.snapshot == Some(snapshot@)
            &&& snapshot.files.entries@.len() == 0 ==> after.snapshot is None
        }),
{
}

/// A new chat keeps how the conversation may act.
pub proof fn law_new_chats_keep_the_mode(c: ConversationModel)
    ensures
        cleared(c).gate.auto_approve == c.gate.auto_approve,
        cleared(c).gate.plan == c.gate.plan,
        cleared(c).gate.plan_requested == c.gate.plan_requested,
        cleared(c).gate.always_allowed.len() == 0,
        cleared(c).messages.len() == 0,
{
}

/// Where neither the session nor the messages changed, nothing has to be settled; and settling never
/// touches what was said, the session or what can be taken back.
pub proof fn law_settling_touches_no_message(
    c: ConversationModel,
    id: Option<Seq<char>>,
    messages: int,
    stored: Option<(Seq<char>, Seq<char>)>,
)
    ensures
        c.id() == id && c.messages.len() == messages ==> settled(c, id, messages, stored) == c,
        settled(c, id, messages, stored).messages == c.messages,
        settled(c, id, messages, stored).session == c.session,
        settled(c, id, messages, stored).snapshot == c.snapshot,
        c.id() == id ==> settled(c, id, messages, stored).gate == c.gate,
        c.messages.len() != messages ==> settled(c, id, messages, stored).summarized == 0,
{
}

/// What the model summed up is kept whole, but for white space around it, and stands for the messages
/// up to the place that was asked for.
pub proof fn law_summaries_are_kept(c: ConversationModel, upto: int, words: Seq<char>)
    ensures
        ({
            let after = folded(c, upto, Ok(words));
            &&& after.summarized == upto
            &&& after.summary matches Some(summary) && text::stands_in(words, summary)
            &&& words.len() > 0 && !text::is_white(words[0]) && !text::is_white(words.last())
                ==> after.summary == Some(words)
            &&& after.gate == c.gate
            &&& after.snapshot == c.snapshot
        }),
{
    scan::lemma_trimmed_stands(words);
    if words.len() > 0 && !text::is_white(words[0]) && !text::is_white(words.last()) {
        scan::lemma_trimmed_bare(words);
    }
}

/// Messages are folded when the user asks, and by themselves only once they are larger than the
/// limit; where there is nothing to fold, nothing is.
pub proof fn law_folding_waits_for_the_limit(bytes: usize, threshold: usize, upto: usize)
    ensures
        compaction_step(Trigger::Command, Some(upto)) == (CompactionStep::Ask { upto }),
        compaction_step(Trigger::Command, None) is TooShort,
        bytes <= threshold ==> compaction_step(
            Trigger::Automatic { bytes, threshold },
            Some(upto),
        ) is Nothing,
        bytes > threshold ==> compaction_step(Trigger::Automatic { bytes, threshold }, Some(upto))
            == (CompactionStep::Ask { upto }),
        compaction_step(Trigger::Automatic { bytes, threshold }, None) is Nothing,
{
}

/// Why folding failed is always told, whole, and so is how much was folded.
#[verifier::rlimit(50)]
pub proof fn law_folding_is_reported(
    trigger: Trigger,
    error: Seq<char>,
    tui: bool,
    n: nat,
    cache_pinned: bool,
)
    ensures
        text::stands_in(compaction_failure(trigger, error, tui), error),
        text::stands_in(compaction_note(trigger, n, cache_pinned), number::decimal(n)),
{
    broadcast use text::group_stands;

}

/// A session is resumed exactly where one was found under a text that is not empty and it belongs to
/// the provider that is active; what is resumed is the one that was found.
pub proof fn law_only_sessions_of_the_provider_are_resumed(
    prefix: Seq<char>,
    found: Option<SessionModel>,
    provider: Seq<char>,
)
    ensures
        match resumable(prefix, found, provider) {
            Ok(session) => found == Some(session) && session.provider == provider && prefix.len()
                > 0,
            Err(SessionError::NoId) => prefix.len() == 0,
            Err(SessionError::NotFound { prefix: told }) => prefix.len() > 0 && found is None && told
                == prefix,
            Err(SessionError::OtherProvider { provider: other, active }) => found matches Some(
                session,
            ) && session.provider == other && other != provider && active == provider,
        },
{
}

/// The profile that was used last is used again where it still exists, and the configured one
/// otherwise.
pub proof fn law_the_last_profile_is_used_again(config: config::ConfigModel, i: int, name: Seq<char>)
    ensures
        0 <= i < config.profiles.len() ==> active_name(config, Some(config.profiles[i].name))
            == config.profiles[i].name,
        active_name(config, None) == config.default_profile,
        (forall|k: int|
            0 <= k < config.profiles.len() ==> (#[trigger] config.profiles[k]).name != name)
            ==> active_name(config, Some(name)) == config.default_profile,
{
}

/// Why a session cannot be had names what was typed, or both providers.
#[verifier::rlimit(50)]
pub proof fn law_session_errors_say_why(prefix: Seq<char>, provider: Seq<char>, active: Seq<char>)
    ensures
        text::stands_in((SessionError::NotFound { prefix }).words(), prefix),
        text::stands_in((SessionError::OtherProvider { provider, active }).words(), provider),
        text::stands_in((SessionError::OtherProvider { provider, active }).words(), active),
{
    broadcast use text::group_stands;

}

} // verus!
