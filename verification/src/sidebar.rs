//! The sidebar, the token badge, and what a request used.
//!
//! Percentages are floating-point numbers, so they come in here as they are shown.
use crate::number;
use crate::number::{count, number as number_text};
use crate::panel;
use crate::panel::GitStatus;
use crate::provider::Usage;
use crate::reports::CacheFigures;
use crate::snippet;
use crate::snippet::{display_path, format_duration, short_id};
use crate::storage::{Session, NEW_TITLE};
use crate::text;
use crate::text::{cat, cat3, same};
use vstd::prelude::*;
use vstd::string::*;

verus! {

broadcast use crate::text::group_views;

// ---------------------------------------------------------------------------------------------
// The prompt cache
// ---------------------------------------------------------------------------------------------

/// A drop of the cached tokens by this many is no sign of anything.
pub const NOISE_FLOOR_TOKENS: u64 = 1024;

/// The cached front of the prompt was lost.
pub open spec fn missed(prev: Option<u64>, cached: u64, input: u64) -> bool {
    prev matches Some(prev) && prev > NOISE_FLOOR_TOKENS && input > 0 && cached < prev
        - NOISE_FLOOR_TOKENS
}

/// Why the cached front of the prompt was lost, as far as is known.
pub open spec fn miss_cause(model_switched: bool, head_rebuilt: bool) -> Seq<char> {
    if model_switched {
        "miss (model switch)"@
    } else if head_rebuilt {
        "miss (prefix rebuilt)"@
    } else {
        "miss"@
    }
}

/// What to say where the cached front of the prompt was lost; nothing where it was not, and
/// nothing of a first request.
pub fn cache_miss_label(
    prev_cached: Option<u64>,
    cached: u64,
    input: u64,
    model_switched: bool,
    head_rebuilt: bool,
) -> (r: Option<&'static str>)
    ensures
        match r {
            Some(label) => missed(prev_cached, cached, input) && label@ == miss_cause(
                model_switched,
                head_rebuilt,
            ),
            None => !missed(prev_cached, cached, input),
        },
{
    let prev = match prev_cached {
        Some(prev) => prev,
        None => {
            return None;
        },
    };
    if prev <= NOISE_FLOOR_TOKENS || input == 0 {
        return None;
    }
    if cached >= prev - NOISE_FLOOR_TOKENS {
        return None;
    }
    if model_switched {
        Some("miss (model switch)")
    } else if head_rebuilt {
        Some("miss (prefix rebuilt)")
    } else {
        Some("miss")
    }
}

/// As long as the cached tokens do not drop by more than noise, nothing is said, whatever changed.
pub proof fn law_steady_caches_stay_silent(prev: u64, cached: u64, input: u64)
    requires
        cached + NOISE_FLOOR_TOKENS >= prev,
    ensures
        !missed(Some(prev), cached, input),
        !missed(None, cached, input),
{
}

/// What is known of the request before.
#[derive(Debug)]
pub struct CacheWatch {
    pub prev_cached: Option<u64>,
    pub prev_model: Option<String>,
    /// The front of the prompt was rebuilt on purpose since.
    pub head_rebuilt: bool,
}

impl CacheWatch {
    /// The request was sent to another model than the one before.
    pub open spec fn switched(&self, model: Seq<char>) -> bool {
        text::opt_view(self.prev_model) != Some(model)
    }

    /// Nothing was sent yet.
    pub fn new() -> (r: CacheWatch)
        ensures
            r.prev_cached is None,
            r.prev_model is None,
            !r.head_rebuilt,
    {
        CacheWatch { prev_cached: None, prev_model: None, head_rebuilt: false }
    }

    /// Take in what a request used, and say where the cached front was lost.
    pub fn observe(&mut self, usage: &Usage, model: &str) -> (r: Option<&'static str>)
        ensures
            match r {
                Some(label) => missed(old(self).prev_cached, usage.cached_tokens, usage.prompt_tokens)
                    && label@ == miss_cause(old(self).switched(model@), old(self).head_rebuilt),
                None => !missed(old(self).prev_cached, usage.cached_tokens, usage.prompt_tokens),
            },
            final(self).prev_cached == Some(usage.cached_tokens),
            text::opt_view(final(self).prev_model) == Some(model@),
            !final(self).head_rebuilt,
    {
        let switched = match &self.prev_model {
            Some(before) => !same(before.as_str(), model),
            None => true,
        };
        let label = cache_miss_label(
            self.prev_cached,
            usage.cached_tokens,
            usage.prompt_tokens,
            switched,
            self.head_rebuilt,
        );
        self.prev_cached = Some(usage.cached_tokens);
        self.prev_model = Some(model.to_owned());
        self.head_rebuilt = false;
        label
    }
}

/// What it costs to sum up earlier messages.
pub open spec fn reset_note(cache_pinned: bool) -> Seq<char> {
    if cache_pinned {
        " The cached prompt prefix resets, so the next turn warms up again."@
    } else {
        seq![]
    }
}

/// What it costs to sum up earlier messages, where the session is pinned to a cached prompt.
pub fn cache_reset_note(cache_pinned: bool) -> (r: &'static str)
    ensures
        r@ == reset_note(cache_pinned),
{
    if cache_pinned {
        " The cached prompt prefix resets, so the next turn warms up again."
    } else {
        proof {
            reveal_strlit("");
        }
        assert(""@ =~= seq![]);
        ""
    }
}

// ---------------------------------------------------------------------------------------------
// One request
// ---------------------------------------------------------------------------------------------

/// How a request went besides its tokens.
#[derive(Debug)]
pub struct RequestFacts {
    pub cache_pinned: bool,
    pub finish_reason: String,
    /// How long the first token took, in milliseconds.
    pub first_token: Option<u64>,
    /// How long it took altogether, in milliseconds.
    pub elapsed: u64,
    pub has_window: bool,
    /// The share of the prompt that was cached, where there is one.
    pub hit: Option<String>,
    /// The share of the context window that the prompt takes.
    pub context: String,
}

/// A time that can be shown.
pub open spec fn showable(millis: u64) -> bool {
    millis <= u64::MAX - 50
}

impl RequestFacts {
    /// The times can be shown.
    pub open spec fn wf(&self) -> bool {
        &&& showable(self.elapsed)
        &&& self.first_token matches Some(millis) ==> showable(millis)
    }
}

/// What a request used, in a line.
pub open spec fn usage_line(usage: Usage, facts: RequestFacts, miss: Option<Seq<char>>) -> Seq<char> {
    let cache = match facts.hit {
        Some(hit) if usage.cached_tokens > 0 => " | Cached: "@ + number::decimal(
            usage.cached_tokens as nat,
        ) + " ("@ + hit@ + "%)"@,
        _ => match miss {
            Some(label) => " | Cache "@ + label,
            None => if facts.cache_pinned {
                " | Cached: 0 (warm-up)"@
            } else {
                seq![]
            },
        },
    };
    let context = if facts.has_window {
        " | Context: "@ + facts.context@ + "%"@
    } else {
        seq![]
    };
    let first = match facts.first_token {
        Some(millis) => " | TTFT: "@ + snippet::duration_text(millis as nat),
        None => seq![],
    };
    "Tokens: "@ + number::decimal(usage.prompt_tokens as nat) + " input + "@ + number::decimal(
        usage.completion_tokens as nat,
    ) + " output = "@ + number::decimal(usage.total_tokens as nat) + " total"@ + cache + context
        + first + " | Time: "@ + snippet::duration_text(facts.elapsed as nat) + " | Finish: "@
        + facts.finish_reason@
}

/// What a request used, in a line.
pub fn format_usage(usage: &Usage, facts: &RequestFacts, miss_label: Option<&str>) -> (r: String)
    requires
        facts.wf(),
    ensures
        r@ == usage_line(*usage, *facts, text::str_view(miss_label)),
{
    let input = number_text(usage.prompt_tokens);
    let output = number_text(usage.completion_tokens);
    let total = number_text(usage.total_tokens);
    let mut line = cat3("Tokens: ", input.as_str(), " input + ");
    line.append(output.as_str());
    line.append(" output = ");
    line.append(total.as_str());
    line.append(" total");
    let mut cache = String::new();
    assert(cache@ =~= seq![]);
    let shown = usage.cached_tokens > 0 && facts.hit.is_some();
    if shown {
        if let Some(hit) = &facts.hit {
            let cached = number_text(usage.cached_tokens);
            cache = cat3(" | Cached: ", cached.as_str(), " (");
            cache.append(hit.as_str());
            cache.append("%)");
        }
    } else if let Some(label) = miss_label {
        cache = cat(" | Cache ", label);
    } else if facts.cache_pinned {
        cache = " | Cached: 0 (warm-up)".to_owned();
    }
    line.append(cache.as_str());
    let mut context = String::new();
    assert(context@ =~= seq![]);
    if facts.has_window {
        context = cat3(" | Context: ", facts.context.as_str(), "%");
    }
    line.append(context.as_str());
    let mut first = String::new();
    assert(first@ =~= seq![]);
    if let Some(millis) = facts.first_token {
        let time = format_duration(millis);
        first = cat(" | TTFT: ", time.as_str());
    }
    line.append(first.as_str());
    let time = format_duration(facts.elapsed);
    line.append(" | Time: ");
    line.append(time.as_str());
    line.append(" | Finish: ");
    line.append(facts.finish_reason.as_str());
    line
}

/// The times of a request, a line each.
pub open spec fn times_of(facts: RequestFacts) -> Seq<char> {
    let first = match facts.first_token {
        Some(millis) => "\nlat\t"@ + snippet::duration_text(millis as nat),
        None => seq![],
    };
    first + "\ntime\t"@ + snippet::duration_text(facts.elapsed as nat)
}

fn write_times(facts: &RequestFacts) -> (r: String)
    requires
        facts.wf(),
    ensures
        r@ == times_of(*facts),
{
    let mut out = String::new();
    assert(out@ =~= seq![]);
    if let Some(millis) = facts.first_token {
        let time = format_duration(millis);
        out = cat("\nlat\t", time.as_str());
    }
    let time = format_duration(facts.elapsed);
    out.append("\ntime\t");
    out.append(time.as_str());
    out
}

/// What a request used, a line for each figure.
pub open spec fn last_turn_of(usage: Usage, facts: RequestFacts, miss: Option<Seq<char>>) -> Seq<char> {
    let cache = match facts.hit {
        Some(hit) if usage.cached_tokens > 0 && usage.prompt_tokens > 0 => "\ncache\t"@
            + number::decimal(usage.cached_tokens as nat) + " ("@ + hit@ + "%)"@,
        _ => match miss {
            Some(label) => "\ncache\t"@ + label,
            None => if facts.cache_pinned {
                "\ncache\t0 (warm-up)"@
            } else {
                seq![]
            },
        },
    };
    "tok\t"@ + number::decimal(usage.total_tokens as nat) + "\nin\t"@ + number::decimal(
        usage.prompt_tokens as nat,
    ) + cache + times_of(facts)
}

/// What a request used, a line for each figure.
pub fn last_turn(usage: &Usage, facts: &RequestFacts, miss_label: Option<&str>) -> (r: String)
    requires
        facts.wf(),
    ensures
        r@ == last_turn_of(*usage, *facts, text::str_view(miss_label)),
{
    let total = number_text(usage.total_tokens);
    let input = number_text(usage.prompt_tokens);
    let mut out = cat3("tok\t", total.as_str(), "\nin\t");
    out.append(input.as_str());
    let mut cache = String::new();
    assert(cache@ =~= seq![]);
    let shown = usage.cached_tokens > 0 && usage.prompt_tokens > 0 && facts.hit.is_some();
    if shown {
        if let Some(hit) = &facts.hit {
            let cached = number_text(usage.cached_tokens);
            cache = cat3("\ncache\t", cached.as_str(), " (");
            cache.append(hit.as_str());
            cache.append("%)");
        }
    } else if let Some(label) = miss_label {
        cache = cat("\ncache\t", label);
    } else if facts.cache_pinned {
        cache = "\ncache\t0 (warm-up)".to_owned();
    }
    out.append(cache.as_str());
    let times = write_times(facts);
    out.append(times.as_str());
    out
}

/// What a turn did so far, a line for each figure.
pub fn activity(tool_calls: usize, facts: &RequestFacts) -> (r: String)
    requires
        facts.wf(),
    ensures
        r@ == "tools\t"@ + number::decimal(tool_calls as nat) + times_of(*facts),
{
    let n = count(tool_calls);
    let times = write_times(facts);
    cat3("tools\t", n.as_str(), times.as_str())
}

// ---------------------------------------------------------------------------------------------
// The sidebar
// ---------------------------------------------------------------------------------------------

/// Where a group stands among the entries.
pub open spec fn group_at(entries: Seq<(Seq<char>, Seq<char>)>, key: Seq<char>) -> nat
    decreases entries.len(),
{
    if entries.len() == 0 || entries[0].0 == key {
        0
    } else {
        1 + group_at(entries.skip(1), key)
    }
}

/// The entries with one more group, or with more in the group that is there.
pub open spec fn with_group(
    entries: Seq<(Seq<char>, Seq<char>)>,
    key: Seq<char>,
    value: Seq<char>,
) -> Seq<(Seq<char>, Seq<char>)> {
    let i = group_at(entries, key);
    if i < entries.len() {
        entries.update(i as int, (key, entries[i as int].1 + "\n"@ + value))
    } else {
        entries.push((key, value))
    }
}

proof fn lemma_group_at(entries: Seq<(Seq<char>, Seq<char>)>, key: Seq<char>, i: int)
    requires
        0 <= i <= entries.len(),
        forall|j: int| 0 <= j < i ==> (#[trigger] entries[j]).0 != key,
        i < entries.len() ==> entries[i].0 == key,
    ensures
        group_at(entries, key) == i,
    decreases i,
{
    if i > 0 {
        assert(entries[0].0 != key);
        assert(forall|j: int| 0 <= j < i - 1 ==> (#[trigger] entries.skip(1)[j]) == entries[j + 1]);
        lemma_group_at(entries.skip(1), key, i - 1);
    }
}

/// Add a group to the entries, or add to the group that is there.
pub fn entries_push(entries: &mut Vec<(String, String)>, key: &str, value: String)
    ensures
        panel::pairs(final(entries)@) == with_group(panel::pairs(old(entries)@), key@, value@),
{
    let ghost all = panel::pairs(entries@);
    let mut i: usize = 0;
    while i < entries.len()
        invariant
            i <= entries.len(),
            all == panel::pairs(entries@),
            *entries == *old(entries),
            forall|j: int| 0 <= j < i ==> (#[trigger] all[j]).0 != key@,
        decreases entries.len() - i,
    {
        if same(entries[i].0.as_str(), key) {
            proof {
                lemma_group_at(all, key@, i as int);
            }
            let merged = cat3(entries[i].1.as_str(), "\n", value.as_str());
            entries[i] = (key.to_owned(), merged);
            assert(panel::pairs(entries@) =~= with_group(all, key@, value@));
            return;
        }
        i += 1;
    }
    proof {
        lemma_group_at(all, key@, i as int);
    }
    let ghost model = value@;
    entries.push((key.to_owned(), value));
    assert(panel::pairs(entries@) =~= all.push((key@, model)));
}

/// What the sidebar shows of the run.
#[derive(Debug)]
pub struct RuntimeFacts {
    pub model: String,
    pub mode: String,
    pub version: String,
    pub git: Option<GitStatus>,
    pub root: String,
    pub mcp: String,
}

/// What the sidebar shows of the last prompt.
#[derive(Debug)]
pub struct TokenFacts {
    pub last_input: Option<u64>,
    pub last_cached: Option<u64>,
    pub window: Option<u64>,
    pub cache_pinned: bool,
    /// How the prompt cache did over the session.
    pub session_cache: Option<String>,
    /// The share of the context window that the prompt takes, to a tenth of a percent.
    pub context: String,
    /// The same, in whole percent up to a hundred; zero without a window.
    pub bar: u8,
    /// The share of the prompt that was cached.
    pub hit: String,
    /// The thousands of tokens of the prompt, to a tenth.
    pub thousands: String,
}

/// The session in the sidebar.
pub open spec fn session_group(session: Option<Session>, version: Seq<char>) -> Seq<char> {
    let first = match session {
        Some(session) => session.title@ + "\nid\t"@ + snippet::short(session.id@),
        None => NEW_TITLE@,
    };
    first + "\nversion\tv"@ + version
}

/// The run in the sidebar.
pub open spec fn runtime_group(facts: RuntimeFacts) -> Seq<char> {
    let git = match facts.git {
        Some(git) => "\ngit\t"@ + git.branch@ + (if git.changed == 0 {
            seq![]
        } else {
            " · "@ + number::decimal(git.changed as nat) + " changed"@
        }),
        None => seq![],
    };
    let mcp = if facts.mcp@.len() > 0 {
        "\nmcp\t"@ + facts.mcp@
    } else {
        seq![]
    };
    "model\t"@ + facts.model@ + "\nmode\t"@ + facts.mode@ + git + "\nproject\t"@
        + snippet::displayed(facts.root@) + mcp
}

/// The last prompt had cached tokens.
pub open spec fn hit_shown(facts: TokenFacts) -> bool {
    &&& facts.last_input matches Some(tokens) && tokens > 0
    &&& facts.last_cached matches Some(cached) && cached > 0
}

/// The last prompt of a session that is pinned to a cached prompt had no cached tokens.
pub open spec fn warming(facts: TokenFacts) -> bool {
    facts.last_input is Some && facts.last_cached == Some(0u64) && facts.cache_pinned
}

/// The last prompt in the sidebar.
pub open spec fn context_group(facts: TokenFacts) -> Seq<char> {
    let first = match (facts.last_input, facts.window) {
        (Some(tokens), Some(window)) => number::decimal(tokens as nat) + " tokens ("@
            + facts.context@ + "% of "@ + number::decimal(window as nat) + ")"@,
        (Some(tokens), None) => number::decimal(tokens as nat) + " tokens"@,
        (None, _) => "\u{2014}"@,
    };
    let bar = match (facts.last_input, facts.window) {
        (Some(_), Some(window)) => if window > 0 {
            "\nbar\t"@ + number::decimal(facts.bar as nat)
        } else {
            seq![]
        },
        _ => seq![],
    };
    let cache = if hit_shown(facts) {
        "\ncache\t"@ + number::decimal(facts.last_cached->0 as nat) + " ("@ + facts.hit@ + "%)"@
    } else if warming(facts) {
        "\ncache\t0 (warm-up)"@
    } else {
        seq![]
    };
    let session = match facts.session_cache {
        Some(summary) => "\nsession\t"@ + summary@,
        None => seq![],
    };
    first + bar + cache + session
}

/// The groups of the sidebar.
pub open spec fn sidebar_groups(
    session: Option<Session>,
    runtime: RuntimeFacts,
    tokens: TokenFacts,
    activity: Option<Seq<char>>,
    last_turn: Option<Seq<char>>,
) -> Seq<(Seq<char>, Seq<char>)> {
    let first = seq![
        ("Session"@, session_group(session, runtime.version@)),
        ("Runtime"@, runtime_group(runtime)),
        ("Context"@, context_group(tokens)),
    ];
    let second = match activity {
        Some(value) => first.push(("Activity"@, value)),
        None => first,
    };
    match last_turn {
        Some(value) => second.push(("Last turn"@, value)),
        None => second,
    }
}

fn write_session(session: Option<&Session>, version: &str) -> (r: String)
    ensures
        r@ == session_group(
            match session {
                Some(session) => Some(*session),
                None => None,
            },
            version@,
        ),
{
    let mut out = match session {
        Some(session) => {
            let short = short_id(session.id.as_str());
            cat3(session.title.as_str(), "\nid\t", short.as_str())
        },
        None => NEW_TITLE.to_owned(),
    };
    out.append("\nversion\tv");
    out.append(version);
    out
}

fn write_runtime(facts: &RuntimeFacts) -> (r: String)
    ensures
        r@ == runtime_group(*facts),
{
    let mut out = cat3("model\t", facts.model.as_str(), "\nmode\t");
    out.append(facts.mode.as_str());
    let mut git = String::new();
    assert(git@ =~= seq![]);
    if let Some(status) = &facts.git {
        let mut dirty = String::new();
        assert(dirty@ =~= seq![]);
        if status.changed != 0 {
            let changed = count(status.changed);
            dirty = cat3(" · ", changed.as_str(), " changed");
        }
        git = cat3("\ngit\t", status.branch.as_str(), dirty.as_str());
    }
    out.append(git.as_str());
    let root = display_path(facts.root.as_str());
    out.append("\nproject\t");
    out.append(root.as_str());
    let mut mcp = String::new();
    assert(mcp@ =~= seq![]);
    if !facts.mcp.as_str().is_empty() {
        mcp = cat("\nmcp\t", facts.mcp.as_str());
    }
    out.append(mcp.as_str());
    out
}

fn write_context(facts: &TokenFacts) -> (r: String)
    ensures
        r@ == context_group(*facts),
{
    let mut out = "\u{2014}".to_owned();
    let mut bar = String::new();
    assert(bar@ =~= seq![]);
    if let Some(tokens) = facts.last_input {
        let n = number_text(tokens);
        match facts.window {
            Some(window) => {
                let most = number_text(window);
                out = cat3(n.as_str(), " tokens (", facts.context.as_str());
                out.append("% of ");
                out.append(most.as_str());
                out.append(")");
                if window > 0 {
                    let share = number_text(facts.bar as u64);
                    bar = cat("\nbar\t", share.as_str());
                }
            },
            None => {
                out = cat(n.as_str(), " tokens");
            },
        }
    }
    out.append(bar.as_str());
    let mut cache = String::new();
    assert(cache@ =~= seq![]);
    if let Some(tokens) = facts.last_input {
        if let Some(cached) = facts.last_cached {
            if tokens > 0 && cached > 0 {
                let n = number_text(cached);
                cache = cat3("\ncache\t", n.as_str(), " (");
                cache.append(facts.hit.as_str());
                cache.append("%)");
            } else if cached == 0 && facts.cache_pinned {
                cache = "\ncache\t0 (warm-up)".to_owned();
            }
        }
    }
    out.append(cache.as_str());
    let mut session = String::new();
    assert(session@ =~= seq![]);
    if let Some(summary) = &facts.session_cache {
        session = cat("\nsession\t", summary.as_str());
    }
    out.append(session.as_str());
    out
}

/// The groups of the sidebar: the session, the run, the last prompt, and what the turn did.
pub fn sidebar_entries(
    session: Option<&Session>,
    runtime: &RuntimeFacts,
    tokens: &TokenFacts,
    activity: Option<String>,
    last_turn: Option<String>,
) -> (r: Vec<(String, String)>)
    ensures
        panel::pairs(r@) == sidebar_groups(
            match session {
                Some(session) => Some(*session),
                None => None,
            },
            *runtime,
            *tokens,
            text::opt_view(activity),
            text::opt_view(last_turn),
        ),
{
    proof {
        reveal_strlit("Session");
        reveal_strlit("Runtime");
        reveal_strlit("Context");
        reveal_strlit("Activity");
        reveal_strlit("Last turn");
        assert("Session"@[0] == 'S');
        assert("Runtime"@[0] == 'R');
        assert("Context"@[0] == 'C');
        assert("Activity"@[0] == 'A');
        assert("Last turn"@[0] == 'L');
    }
    let mut entries: Vec<(String, String)> = Vec::new();
    assert(panel::pairs(entries@) =~= seq![]);
    let first = write_session(session, runtime.version.as_str());
    let ghost one = first@;
    entries_push(&mut entries, "Session", first);
    assert(panel::pairs(entries@) =~= seq![("Session"@, one)]);
    let second = write_runtime(runtime);
    let ghost two = second@;
    proof {
        lemma_group_at(panel::pairs(entries@), "Runtime"@, 1);
    }
    entries_push(&mut entries, "Runtime", second);
    assert(panel::pairs(entries@) =~= seq![("Session"@, one), ("Runtime"@, two)]);
    let third = write_context(tokens);
    let ghost three = third@;
    proof {
        lemma_group_at(panel::pairs(entries@), "Context"@, 2);
    }
    entries_push(&mut entries, "Context", third);
    let ghost base = seq![("Session"@, one), ("Runtime"@, two), ("Context"@, three)];
    assert(panel::pairs(entries@) =~= base);
    if let Some(value) = activity {
        proof {
            lemma_group_at(panel::pairs(entries@), "Activity"@, 3);
        }
        entries_push(&mut entries, "Activity", value);
    }
    if let Some(value) = last_turn {
        proof {
            lemma_group_at(
                panel::pairs(entries@),
                "Last turn"@,
                panel::pairs(entries@).len() as int,
            );
        }
        entries_push(&mut entries, "Last turn", value);
    }
    entries
}

/// The token badge: the tokens of the last prompt and how much of it was cached, with the share of
/// the context window.
pub open spec fn badge_of(facts: TokenFacts) -> Option<(Seq<char>, u8)> {
    match facts.last_input {
        Some(tokens) => {
            let first = if tokens >= 1000 {
                facts.thousands@ + "k tok"@
            } else {
                number::decimal(tokens as nat) + " tok"@
            };
            let cache = if hit_shown(facts) {
                " · "@ + facts.hit@ + "% hit"@
            } else if warming(facts) {
                " · warm"@
            } else {
                seq![]
            };
            Some((first + cache, facts.bar))
        },
        None => None,
    }
}

/// The token badge; nothing where nothing was sent yet.
pub fn token_badge(facts: &TokenFacts) -> (r: Option<(String, u8)>)
    ensures
        match r {
            Some(badge) => badge_of(*facts) == Some((badge.0@, badge.1)),
            None => badge_of(*facts) is None,
        },
{
    let tokens = match facts.last_input {
        Some(tokens) => tokens,
        None => {
            return None;
        },
    };
    let mut out = if tokens >= 1000 {
        cat(facts.thousands.as_str(), "k tok")
    } else {
        let n = number_text(tokens);
        cat(n.as_str(), " tok")
    };
    let mut cache = String::new();
    assert(cache@ =~= seq![]);
    if let Some(cached) = facts.last_cached {
        if cached > 0 && tokens > 0 {
            cache = cat3(" · ", facts.hit.as_str(), "% hit");
        } else if cached == 0 && facts.cache_pinned {
            cache = " · warm".to_owned();
        }
    }
    out.append(cache.as_str());
    Some((out, facts.bar))
}

/// How the prompt cache did over a session, in a line of the sidebar.
pub fn session_cache_line(cache: &CacheFigures) -> (r: String)
    ensures
        r@ == "median "@ + cache.median@ + "% · "@ + number::decimal(cache.measured as nat)
            + " turns · \u{2265}90% "@ + cache.most@ + "%"@,
{
    let measured = count(cache.measured);
    let mut out = cat3("median ", cache.median.as_str(), "% · ");
    out.append(measured.as_str());
    out.append(" turns · \u{2265}90% ");
    out.append(cache.most.as_str());
    out.append("%");
    out
}

// ---------------------------------------------------------------------------------------------
// What is shown
// ---------------------------------------------------------------------------------------------

/// A cache that lost more than noise is always noticed, and why it did is told apart.
pub proof fn law_lost_caches_are_noticed(prev: u64, cached: u64, input: u64)
    requires
        prev > cached + NOISE_FLOOR_TOKENS,
        input > 0,
    ensures
        missed(Some(prev), cached, input),
        text::stands_in(miss_cause(true, false), "model"@),
        miss_cause(true, true) == miss_cause(true, false),
        miss_cause(false, true) != miss_cause(false, false),
        miss_cause(true, false) != miss_cause(false, true),
{
    reveal_strlit("miss (model switch)");
    reveal_strlit("miss (prefix rebuilt)");
    reveal_strlit("miss");
    reveal_strlit("miss (");
    reveal_strlit(" switch)");
    reveal_strlit("model");
    assert("miss (model switch)"@ =~= "miss ("@ + "model"@ + " switch)"@);
    text::lemma_stands_between("miss ("@, "model"@, " switch)"@);
    assert("miss (model switch)"@.len() == 19);
    assert("miss (prefix rebuilt)"@.len() == 21);
    assert("miss"@.len() == 4);
}

/// The line under an answer tells every count first, then how long it took and how it ended; what was
/// cached, how full the context is and when the first words came are told wherever they are known.
pub proof fn law_usage_lines_tell_everything(usage: Usage, facts: RequestFacts, miss: Option<Seq<char>>)
    ensures
        ({
            let line = usage_line(usage, facts, miss);
            &&& ("Tokens: "@ + number::decimal(usage.prompt_tokens as nat) + " input + "@
                + number::decimal(usage.completion_tokens as nat) + " output = "@ + number::decimal(
                usage.total_tokens as nat,
            ) + " total"@).is_prefix_of(line)
            &&& facts.finish_reason@.is_suffix_of(line)
            &&& text::stands_in(line, snippet::duration_text(facts.elapsed as nat))
            &&& facts.has_window ==> text::stands_in(line, facts.context@)
            &&& facts.first_token matches Some(millis) ==> text::stands_in(
                line,
                snippet::duration_text(millis as nat),
            )
            &&& usage.cached_tokens > 0 ==> (facts.hit matches Some(hit) ==> text::stands_in(
                line,
                number::decimal(usage.cached_tokens as nat),
            ) && text::stands_in(line, hit@))
            &&& usage.cached_tokens == 0 ==> (miss matches Some(label) ==> text::stands_in(
                line,
                label,
            ))
        }),
{
    let line = usage_line(usage, facts, miss);
    let front = "Tokens: "@ + number::decimal(usage.prompt_tokens as nat) + " input + "@
        + number::decimal(usage.completion_tokens as nat) + " output = "@ + number::decimal(
        usage.total_tokens as nat,
    ) + " total"@;
    assert(front =~= line.take(front.len() as int));
    assert(facts.finish_reason@ =~= line.skip(line.len() - facts.finish_reason@.len()));
    lemma_line_tells(usage, facts, miss, snippet::duration_text(facts.elapsed as nat));
    if facts.has_window {
        lemma_line_tells(usage, facts, miss, facts.context@);
    }
    if let Some(millis) = facts.first_token {
        lemma_line_tells(usage, facts, miss, snippet::duration_text(millis as nat));
    }
    if usage.cached_tokens > 0 {
        if let Some(hit) = facts.hit {
            lemma_line_tells(usage, facts, miss, number::decimal(usage.cached_tokens as nat));
            lemma_line_tells(usage, facts, miss, hit@);
        }
    } else if let Some(label) = miss {
        lemma_line_tells(usage, facts, miss, label);
    }
}

#[verifier::rlimit(50)]
proof fn lemma_line_tells(
    usage: Usage,
    facts: RequestFacts,
    miss: Option<Seq<char>>,
    part: Seq<char>,
)
    requires
        ({
            ||| part == snippet::duration_text(facts.elapsed as nat)
            ||| facts.has_window && part == facts.context@
            ||| facts.first_token matches Some(millis) && part == snippet::duration_text(
                millis as nat,
            )
            ||| usage.cached_tokens > 0 && facts.hit is Some && (part == number::decimal(
                usage.cached_tokens as nat,
            ) || part == facts.hit->0@)
            ||| usage.cached_tokens == 0 && miss == Some(part)
        }),
    ensures
        text::stands_in(usage_line(usage, facts, miss), part),
{
    broadcast use text::group_stands;

}

/// What is added under a key is kept beneath what stood there, and a new key comes last; nothing else
/// is touched.
pub proof fn law_groups_only_grow(
    entries: Seq<(Seq<char>, Seq<char>)>,
    key: Seq<char>,
    value: Seq<char>,
    i: int,
)
    ensures
        ({
            let after = with_group(entries, key, value);
            &&& 0 <= i < entries.len() ==> after[i].0 == entries[i].0 && entries[i].1.is_prefix_of(
                after[i].1,
            )
            &&& 0 <= i < entries.len() && entries[i].0 != key ==> after[i] == entries[i]
            &&& (forall|k: int| 0 <= k < entries.len() ==> (#[trigger] entries[k]).0 != key)
                ==> after == entries.push((key, value))
            &&& exists|k: int|
                0 <= k < after.len() && (#[trigger] after[k]).0 == key && value.is_suffix_of(
                    after[k].1,
                )
        }),
{
    lemma_first_group(entries, key);
    let after = with_group(entries, key, value);
    let k = group_at(entries, key) as int;
    assert(after[k].0 == key);
    assert(value =~= after[k].1.skip(after[k].1.len() - value.len()));
}

proof fn lemma_first_group(entries: Seq<(Seq<char>, Seq<char>)>, key: Seq<char>)
    ensures
        group_at(entries, key) <= entries.len(),
        group_at(entries, key) < entries.len() ==> entries[group_at(entries, key) as int].0 == key,
    decreases entries.len(),
{
    if entries.len() > 0 && entries[0].0 != key {
        lemma_first_group(entries.skip(1), key);
    }
}

/// The sidebar shows every group, in order: the session with its title and id, the run with its
/// model, mode, branch, project and servers, the context, and then what is known of the activity and
/// of the last turn, as it is.
#[verifier::rlimit(50)]
pub proof fn law_sidebars_show_everything(
    session: Option<Session>,
    runtime: RuntimeFacts,
    tokens: TokenFacts,
    activity: Seq<char>,
    last_turn: Seq<char>,
)
    ensures
        ({
            let groups = sidebar_groups(session, runtime, tokens, Some(activity), Some(last_turn));
            let fewer = sidebar_groups(session, runtime, tokens, None, Some(last_turn));
            &&& groups.len() == 5
            &&& groups[3].1 == activity
            &&& groups[4].1 == last_turn
            &&& fewer.len() == 4
            &&& fewer[3] == groups[4]
            &&& session matches Some(found) ==> text::stands_in(groups[0].1, found.title@)
                && text::stands_in(groups[0].1, snippet::short(found.id@))
            &&& text::stands_in(groups[0].1, runtime.version@)
            &&& text::stands_in(groups[1].1, runtime.model@)
            &&& text::stands_in(groups[1].1, runtime.mode@)
            &&& text::stands_in(groups[1].1, snippet::displayed(runtime.root@))
            &&& text::stands_in(groups[1].1, runtime.mcp@)
            &&& runtime.git matches Some(git) ==> text::stands_in(groups[1].1, git.branch@) && (
            git.changed > 0 ==> text::stands_in(groups[1].1, number::decimal(git.changed as nat)))
            &&& tokens.last_input matches Some(last) ==> text::stands_in(
                groups[2].1,
                number::decimal(last as nat) + " tokens"@,
            )
        }),
{
    let groups = sidebar_groups(session, runtime, tokens, Some(activity), Some(last_turn));
    if let Some(found) = session {
        assert(text::stands_in(groups[0].1, found.title@)) by {
            broadcast use text::group_stands;

        }
        assert(text::stands_in(groups[0].1, snippet::short(found.id@))) by {
            broadcast use text::group_stands;

        }
    }
    assert(text::stands_in(groups[0].1, runtime.version@)) by {
        broadcast use text::group_stands;

    }
    assert(text::stands_in(groups[1].1, runtime.model@)) by {
        broadcast use text::group_stands;

    }
    assert(text::stands_in(groups[1].1, runtime.mode@)) by {
        broadcast use text::group_stands;

    }
    assert(text::stands_in(groups[1].1, snippet::displayed(runtime.root@))) by {
        broadcast use text::group_stands;

    }
    assert(text::stands_in(groups[1].1, runtime.mcp@)) by {
        broadcast use text::group_stands;

        if runtime.mcp@.len() == 0 {
            assert(groups[1].1 =~= groups[1].1 + runtime.mcp@);
        }
    }
    if let Some(git) = runtime.git {
        assert(text::stands_in(groups[1].1, git.branch@)) by {
            broadcast use text::group_stands;

        }
        if git.changed > 0 {
            assert(text::stands_in(groups[1].1, number::decimal(git.changed as nat))) by {
                broadcast use text::group_stands;

            }
        }
    }
    if let Some(last) = tokens.last_input {
        let shown = number::decimal(last as nat) + " tokens"@;
        if let Some(window) = tokens.window {
            assert(" tokens ("@ =~= " tokens"@ + " ("@) by {
                reveal_strlit(" tokens (");
                reveal_strlit(" tokens");
                reveal_strlit(" (");
            }
            let rest = " ("@ + tokens.context@ + "% of "@ + number::decimal(window as nat) + ")"@;
            assert(number::decimal(last as nat) + " tokens ("@ + tokens.context@ + "% of "@
                + number::decimal(window as nat) + ")"@ =~= shown + rest);
        }
        assert(text::stands_in(groups[2].1, shown)) by {
            broadcast use text::group_stands;

        }
    }
}

proof fn lemma_last_turn_tells(
    usage: Usage,
    facts: RequestFacts,
    miss: Option<Seq<char>>,
    part: Seq<char>,
)
    requires
        ({
            ||| part == snippet::duration_text(facts.elapsed as nat)
            ||| facts.first_token matches Some(millis) && part == snippet::duration_text(
                millis as nat,
            )
            ||| usage.cached_tokens > 0 && usage.prompt_tokens > 0 && facts.hit is Some && (part
                == number::decimal(usage.cached_tokens as nat) || part == facts.hit->0@)
            ||| usage.cached_tokens == 0 && miss == Some(part)
        }),
    ensures
        text::stands_in(last_turn_of(usage, facts, miss), part),
{
    broadcast use text::group_stands;

}

/// What is shown of the last turn begins with its tokens, all and those that went in, and tells what
/// was cached and how long it took.
pub proof fn law_last_turns_tell_everything(usage: Usage, facts: RequestFacts, miss: Option<Seq<char>>)
    ensures
        ({
            let told = last_turn_of(usage, facts, miss);
            &&& ("tok\t"@ + number::decimal(usage.total_tokens as nat) + "\nin\t"@
                + number::decimal(usage.prompt_tokens as nat)).is_prefix_of(told)
            &&& text::stands_in(told, snippet::duration_text(facts.elapsed as nat))
            &&& facts.first_token matches Some(millis) ==> text::stands_in(
                told,
                snippet::duration_text(millis as nat),
            )
            &&& usage.cached_tokens > 0 && usage.prompt_tokens > 0 ==> (facts.hit matches Some(hit)
                ==> text::stands_in(told, number::decimal(usage.cached_tokens as nat))
                && text::stands_in(told, hit@))
            &&& usage.cached_tokens == 0 ==> (miss matches Some(label) ==> text::stands_in(
                told,
                label,
            ))
        }),
{
    let told = last_turn_of(usage, facts, miss);
    let front = "tok\t"@ + number::decimal(usage.total_tokens as nat) + "\nin\t"@
        + number::decimal(usage.prompt_tokens as nat);
    assert(front =~= told.take(front.len() as int));
    lemma_last_turn_tells(usage, facts, miss, snippet::duration_text(facts.elapsed as nat));
    if let Some(millis) = facts.first_token {
        lemma_last_turn_tells(usage, facts, miss, snippet::duration_text(millis as nat));
    }
    if usage.cached_tokens > 0 && usage.prompt_tokens > 0 {
        if let Some(hit) = facts.hit {
            lemma_last_turn_tells(
                usage,
                facts,
                miss,
                number::decimal(usage.cached_tokens as nat),
            );
            lemma_last_turn_tells(usage, facts, miss, hit@);
        }
    } else if usage.cached_tokens == 0 {
        if let Some(label) = miss {
            lemma_last_turn_tells(usage, facts, miss, label);
        }
    }
}

/// The badge tells how many tokens the last prompt had, and what part of them was cached; it stands
/// only where there was a prompt.
#[verifier::rlimit(50)]
pub proof fn law_badges_tell_the_tokens(facts: TokenFacts)
    ensures
        badge_of(facts) is Some <==> facts.last_input is Some,
        facts.last_input matches Some(tokens) ==> (badge_of(facts) matches Some(badge) && badge.1
            == facts.bar && (tokens < 1000 ==> number::decimal(tokens as nat).is_prefix_of(badge.0))
            && (tokens >= 1000 ==> facts.thousands@.is_prefix_of(badge.0)) && (tokens > 0
            && facts.last_cached is Some && facts.last_cached->0 > 0 ==> text::stands_in(
            badge.0,
            facts.hit@,
        ))),
{
    if let Some(tokens) = facts.last_input {
        let badge = badge_of(facts)->0;
        if tokens < 1000 {
            let n = number::decimal(tokens as nat);
            assert(n =~= badge.0.take(n.len() as int));
        } else {
            assert(facts.thousands@ =~= badge.0.take(facts.thousands@.len() as int));
        }
        if hit_shown(facts) {
            assert(text::stands_in(badge.0, facts.hit@)) by {
                broadcast use text::group_stands;

            }
        }
    }
}

/// The context that is shown tells how full it is, what was cached and how the session has fared,
/// wherever that is known.
#[verifier::rlimit(50)]
pub proof fn law_contexts_are_shown_in_full(facts: TokenFacts)
    ensures
        ({
            let shown = context_group(facts);
            &&& facts.last_input is Some && facts.window is Some ==> text::stands_in(
                shown,
                facts.context@,
            ) && text::stands_in(shown, number::decimal(facts.window->0 as nat))
            &&& facts.last_input is Some && facts.last_input->0 > 0 && facts.last_cached is Some
                && facts.last_cached->0 > 0 ==> text::stands_in(
                shown,
                number::decimal(facts.last_cached->0 as nat),
            ) && text::stands_in(shown, facts.hit@)
            &&& facts.session_cache matches Some(summary) ==> summary@.is_suffix_of(shown)
        }),
{
    let shown = context_group(facts);
    if let Some(summary) = facts.session_cache {
        assert(summary@ =~= shown.skip(shown.len() - summary@.len()));
    }
    broadcast use text::group_stands;

}

} // verus!
