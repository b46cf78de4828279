//! How much a turn may do on its own: the mode, Plan Mode, standing permissions, and what becomes
//! of each tool call.
use crate::provider::{CallModel, ToolCall};
use crate::scan;
use crate::scan::{contains, starts_with, to_lower, trim};
use crate::split;
use crate::split::split_lines;
use crate::text;
use crate::text::{chars_of, copy_opt, holds, same};
use crate::tools::{
    ASK_USER_TOOL, FORGET_TOOL, PATCH_FILE_TOOL, REMEMBER_TOOL, RUN_COMMAND_TOOL, SEARCH_CODE_TOOL,
    SPAWN_AGENT_TOOL, UPDATE_MEMORY_TOOL, UPDATE_PLAN_TOOL,
};
use vstd::prelude::*;
use vstd::string::*;

verus! {

broadcast use crate::text::group_views;

// ---------------------------------------------------------------------------------------------
// Modes
// ---------------------------------------------------------------------------------------------

/// How much a turn may do on its own.
#[derive(Clone, Copy, Debug, PartialEq, Eq, Structural)]
pub enum Mode {
    /// Whatever changes something asks first.
    Build,
    /// Nothing asks, for the rest of the session.
    Auto,
    /// Nothing is changed until a plan is approved.
    Plan,
}

impl Mode {
    /// The mode that comes next in the cycle.
    pub open spec fn next_spec(self) -> Mode {
        match self {
            Mode::Build => Mode::Auto,
            Mode::Auto => Mode::Plan,
            Mode::Plan => Mode::Build,
        }
    }

    /// The mode that comes next in the cycle.
    pub fn next(self) -> (r: Mode)
        ensures
            r == self.next_spec(),
    {
        match self {
            Mode::Build => Mode::Auto,
            Mode::Auto => Mode::Plan,
            Mode::Plan => Mode::Build,
        }
    }

    /// The mode that comes before in the cycle.
    pub open spec fn prev_spec(self) -> Mode {
        match self {
            Mode::Build => Mode::Plan,
            Mode::Auto => Mode::Build,
            Mode::Plan => Mode::Auto,
        }
    }

    /// The mode that comes before in the cycle.
    pub fn prev(self) -> (r: Mode)
        ensures
            r == self.prev_spec(),
    {
        match self {
            Mode::Build => Mode::Plan,
            Mode::Auto => Mode::Build,
            Mode::Plan => Mode::Auto,
        }
    }

    /// The name of the mode.
    pub open spec fn label_spec(self) -> Seq<char> {
        match self {
            Mode::Build => "build"@,
            Mode::Auto => "auto"@,
            Mode::Plan => "plan"@,
        }
    }

    /// The name of the mode.
    pub fn label(self) -> (r: &'static str)
        ensures
            r@ == self.label_spec(),
    {
        match self {
            Mode::Build => "build",
            Mode::Auto => "auto",
            Mode::Plan => "plan",
        }
    }

    /// The mode that a text names, whatever its case and the space around it.
    pub open spec fn parse_spec(s: Seq<char>) -> Option<Mode> {
        let name = scan::lower(scan::trimmed(s));
        if name == "build"@ || name == "normal"@ {
            Some(Mode::Build)
        } else if name == "auto"@ || name == "auto-approve"@ || name == "bypass"@ {
            Some(Mode::Auto)
        } else if name == "plan"@ {
            Some(Mode::Plan)
        } else {
            None
        }
    }

    /// The mode that a text names, whatever its case and the space around it.
    pub fn parse(s: &str) -> (r: Option<Mode>)
        ensures
            r == Self::parse_spec(s@),
    {
        let inner = trim(s);
        let name = to_lower(inner.as_str());
        let name = name.as_str();
        if same(name, "build") || same(name, "normal") {
            Some(Mode::Build)
        } else if same(name, "auto") || same(name, "auto-approve") || same(name, "bypass") {
            Some(Mode::Auto)
        } else if same(name, "plan") {
            Some(Mode::Plan)
        } else {
            None
        }
    }

    /// What the mode permits, in words.
    pub fn describe(self) -> (r: &'static str)
        ensures
            r@ == match self {
                Mode::Build => "build \u{2014} every command and edit asks first"@,
                Mode::Auto =>
                    "auto \u{2014} commands and edits run without asking, for this session only"@,
                Mode::Plan => "plan \u{2014} read-only until you approve a plan"@,
            },
    {
        match self {
            Mode::Build => "build \u{2014} every command and edit asks first",
            Mode::Auto =>
                "auto \u{2014} commands and edits run without asking, for this session only",
            Mode::Plan => "plan \u{2014} read-only until you approve a plan",
        }
    }
}

/// Going forward and back again changes nothing, and three steps forward lead round.
pub proof fn law_modes_cycle(mode: Mode)
    ensures
        mode.next_spec().prev_spec() == mode,
        mode.prev_spec().next_spec() == mode,
        mode.next_spec().next_spec().next_spec() == mode,
        mode.next_spec() != mode,
        mode.next_spec().next_spec() != mode,
{
}

/// A mode is known by its own name.
pub proof fn law_modes_parse_their_labels(mode: Mode)
    ensures
        Mode::parse_spec(mode.label_spec()) == Some(mode),
{
    reveal_strlit("build");
    reveal_strlit("normal");
    reveal_strlit("auto");
    reveal_strlit("auto-approve");
    reveal_strlit("bypass");
    reveal_strlit("plan");
    assert(crate::tui::plain_word("build"@));
    assert(crate::tui::plain_word("auto"@));
    assert(crate::tui::plain_word("plan"@));
    crate::tui::lemma_plain_word(mode.label_spec());
    assert("build"@.len() == 5);
    assert("normal"@.len() == 6);
    assert("auto"@.len() == 4);
    assert("auto-approve"@.len() == 12);
    assert("bypass"@.len() == 6);
    assert("plan"@.len() == 4);
    assert("auto"@[0] != "plan"@[0]);
}

// ---------------------------------------------------------------------------------------------
// Plans
// ---------------------------------------------------------------------------------------------

/// Whether a plan was approved.
#[derive(Clone, Copy, Debug, PartialEq, Eq, Structural)]
pub enum PlanStatus {
    Pending,
    Approved,
}

impl PlanStatus {
    /// The status as it is stored.
    pub open spec fn name_spec(self) -> Seq<char> {
        match self {
            PlanStatus::Pending => "pending"@,
            PlanStatus::Approved => "approved"@,
        }
    }

    /// The status as it is stored.
    pub fn name(self) -> (r: &'static str)
        ensures
            r@ == self.name_spec(),
    {
        match self {
            PlanStatus::Pending => "pending",
            PlanStatus::Approved => "approved",
        }
    }

    /// The status that a stored name means.
    pub open spec fn parse_spec(name: Seq<char>) -> Option<PlanStatus> {
        if name == "pending"@ {
            Some(PlanStatus::Pending)
        } else if name == "approved"@ {
            Some(PlanStatus::Approved)
        } else {
            None
        }
    }

    /// The status that a stored name means.
    pub fn parse(name: &str) -> (r: Option<PlanStatus>)
        ensures
            r == Self::parse_spec(name@),
    {
        if same(name, "pending") {
            Some(PlanStatus::Pending)
        } else if same(name, "approved") {
            Some(PlanStatus::Approved)
        } else {
            None
        }
    }
}

/// A stored status is read back as it was.
pub proof fn law_plan_status_round_trip(status: PlanStatus)
    ensures
        PlanStatus::parse_spec(status.name_spec()) == Some(status),
{
    reveal_strlit("pending");
    reveal_strlit("approved");
    assert("pending"@.len() != "approved"@.len());
}

/// A plan: its status and its JSON, where it was proposed already.
#[derive(Debug)]
pub struct PlanModeState {
    pub status: PlanStatus,
    pub plan_json: Option<String>,
}

/// What a [`PlanModeState`] stands for.
#[verifier::ext_equal]
pub struct PlanModel {
    pub status: PlanStatus,
    pub plan_json: Option<Seq<char>>,
}

impl View for PlanModeState {
    type V = PlanModel;

    open spec fn view(&self) -> PlanModel {
        PlanModel { status: self.status, plan_json: text::opt_view(self.plan_json) }
    }
}

/// A line looks like an item of a list.
pub open spec fn is_item(line: Seq<char>) -> bool {
    ||| scan::has_prefix(line, "- "@)
    ||| scan::has_prefix(line, "* "@)
    ||| scan::has_prefix(line, "- ["@)
    ||| line.len() > 0 && text::is_digit(line[0]) && scan::contains_text(line, ". "@)
}

/// How many signs of a list of steps a line shows: that of an item, and the word itself.
pub open spec fn step_signs(line: Seq<char>) -> nat {
    let t = scan::trimmed(line);
    (if is_item(t) {
        1nat
    } else {
        0
    }) + (if scan::contains_text(scan::lower(t), "step"@) {
        1nat
    } else {
        0
    })
}

/// How many signs of a list of steps some lines show.
pub open spec fn all_signs(lines: Seq<Seq<char>>) -> nat
    decreases lines.len(),
{
    if lines.len() == 0 {
        0
    } else {
        all_signs(lines.drop_last()) + step_signs(lines.last())
    }
}

/// The prompt asks for several steps.
pub open spec fn multi_step(input: Seq<char>) -> bool {
    all_signs(split::lines(input)) >= 3
}

proof fn lemma_signs_grow(lines: Seq<Seq<char>>, n: int)
    requires
        0 <= n <= lines.len(),
    ensures
        all_signs(lines.take(n)) <= all_signs(lines),
    decreases lines.len(),
{
    if n == lines.len() {
        assert(lines.take(n) =~= lines);
    } else {
        assert(lines.drop_last().take(n) =~= lines.take(n));
        lemma_signs_grow(lines.drop_last(), n);
    }
}

/// Whether the prompt asks for several steps: it shows at least three signs of a list of them.
pub fn looks_like_multi_step(input: &str) -> (r: bool)
    ensures
        r == multi_step(input@),
{
    let lines = split_lines(input);
    let ghost all = split::lines(input@);
    let mut hits: usize = 0;
    let mut i: usize = 0;
    while i < lines.len()
        invariant
            i <= lines.len(),
            text::views(lines@) == all,
            all == split::lines(input@),
            hits == all_signs(all.take(i as int)),
            hits < 3,
        decreases lines.len() - i,
    {
        assert(all.take(i + 1).drop_last() =~= all.take(i as int));
        assert(all.take(i + 1).last() == lines@[i as int]@);
        let t = trim(lines[i].as_str());
        let chars = chars_of(t.as_str());
        let numbered = chars.len() > 0 && '0' <= chars[0] && chars[0] <= '9';
        if starts_with(t.as_str(), "- ") || starts_with(t.as_str(), "* ") || starts_with(
            t.as_str(),
            "- [",
        ) || (numbered && contains(t.as_str(), ". ")) {
            hits += 1;
        }
        let low = to_lower(t.as_str());
        if contains(low.as_str(), "step") {
            hits += 1;
        }
        if hits >= 3 {
            proof {
                lemma_signs_grow(all, i + 1);
            }
            return true;
        }
        i += 1;
    }
    assert(all.take(i as int) =~= all);
    false
}

/// The answer approves a plan.
pub open spec fn approves_plan(answer: Seq<char>) -> bool {
    let a = scan::lower(scan::trimmed(answer));
    a == "y"@ || a == "yes"@ || a == "approve"@ || a == "approved"@
}

/// Whether the answer approves a plan.
pub fn is_plan_approval(answer: &str) -> (r: bool)
    ensures
        r == approves_plan(answer@),
{
    let inner = trim(answer);
    let a = to_lower(inner.as_str());
    let a = a.as_str();
    same(a, "y") || same(a, "yes") || same(a, "approve") || same(a, "approved")
}

/// The tool changes something.
pub open spec fn mutating(name: Seq<char>) -> bool {
    name == PATCH_FILE_TOOL@ || name == RUN_COMMAND_TOOL@ || name == "command_status"@ || name
        == "stop_command"@
}

/// Whether a tool changes something, so that a pending plan holds it.
pub fn is_mutating_tool(name: &str) -> (r: bool)
    ensures
        r == mutating(name@),
{
    same(name, PATCH_FILE_TOOL) || same(name, RUN_COMMAND_TOOL) || same(name, "command_status")
        || same(name, "stop_command")
}

/// The tool is one of the three that work on remembered facts.
pub open spec fn of_memory(name: Seq<char>) -> bool {
    name == REMEMBER_TOOL@ || name == UPDATE_MEMORY_TOOL@ || name == FORGET_TOOL@
}

/// Whether a tool is one of the three that work on remembered facts.
pub fn is_memory_tool(name: &str) -> (r: bool)
    ensures
        r == of_memory(name@),
{
    same(name, REMEMBER_TOOL) || same(name, UPDATE_MEMORY_TOOL) || same(name, FORGET_TOOL)
}

// ---------------------------------------------------------------------------------------------
// Holding and asking
// ---------------------------------------------------------------------------------------------

/// What stands between a tool call and its running.
#[derive(Debug)]
pub struct Gate {
    pub mode: Mode,
    pub auto_approve: bool,
    pub plan: Option<PlanModeState>,
    /// The next turn is to begin with a plan.
    pub plan_requested: bool,
    /// Tools that the user allowed for the rest of the session.
    pub always_allowed: Vec<String>,
}

/// What a [`Gate`] stands for.
#[verifier::ext_equal]
pub struct GateModel {
    pub mode: Mode,
    pub auto_approve: bool,
    pub plan: Option<PlanModel>,
    pub plan_requested: bool,
    pub always_allowed: Seq<Seq<char>>,
}

impl View for Gate {
    type V = GateModel;

    open spec fn view(&self) -> GateModel {
        GateModel {
            mode: self.mode,
            auto_approve: self.auto_approve,
            plan: match self.plan {
                Some(plan) => Some(plan@),
                None => None,
            },
            plan_requested: self.plan_requested,
            always_allowed: text::views(self.always_allowed@),
        }
    }
}

impl GateModel {
    /// A plan waits for approval.
    pub open spec fn pending(self) -> bool {
        self.plan matches Some(plan) && plan.status == PlanStatus::Pending
    }

    /// Approvals are bypassed exactly in the mode that says so, and a plan waits for approval
    /// only in the mode that says so.
    pub open spec fn wf(self) -> bool {
        &&& self.auto_approve <==> self.mode == Mode::Auto
        &&& self.pending() ==> self.mode == Mode::Plan
    }
}

/// A session begins.
pub open spec fn opened(auto_approve: bool) -> GateModel {
    GateModel {
        mode: if auto_approve {
            Mode::Auto
        } else {
            Mode::Build
        },
        auto_approve,
        plan: None,
        plan_requested: false,
        always_allowed: seq![],
    }
}

/// A stored plan, as far as its status is known.
pub open spec fn stored_plan(stored: Option<(Seq<char>, Seq<char>)>) -> Option<PlanModel> {
    match stored {
        Some(pair) => match PlanStatus::parse_spec(pair.1) {
            Some(status) => Some(PlanModel { status, plan_json: Some(pair.0) }),
            None => None,
        },
        None => None,
    }
}

/// A gate with another plan, and the mode that goes with it.
pub open spec fn with_plan(gate: GateModel, plan: Option<PlanModel>) -> GateModel {
    let next = GateModel { plan, ..gate };
    GateModel {
        mode: if next.pending() {
            Mode::Plan
        } else {
            Mode::Build
        },
        auto_approve: false,
        ..next
    }
}

/// A session is resumed at the start: a stored plan decides the mode, and without one the mode
/// stays as it is.
pub open spec fn at_start(gate: GateModel, stored: Option<(Seq<char>, Seq<char>)>) -> GateModel {
    match stored_plan(stored) {
        Some(plan) => with_plan(gate, Some(plan)),
        None => gate,
    }
}

/// What is stored of the plan of a session: its JSON and its status, once it has a JSON.
pub open spec fn to_store(gate: GateModel) -> Option<(Seq<char>, Seq<char>)> {
    match gate.plan {
        Some(plan) => match plan.plan_json {
            Some(json) => Some((json, plan.status.name_spec())),
            None => None,
        },
        None => None,
    }
}

/// A stored plan is taken up again as it was, and with it whether it holds anything.
pub proof fn law_stored_plans_come_back(gate: GateModel, next: GateModel)
    requires
        to_store(gate) is Some,
    ensures
        with_plan(next, stored_plan(to_store(gate))).plan == gate.plan,
        with_plan(next, stored_plan(to_store(gate))).pending() == gate.pending(),
{
    law_plan_status_round_trip(gate.plan->0.status);
}

/// The user asked for a mode. Leaving Plan Mode drops the plan.
pub open spec fn with_mode(gate: GateModel, requested: Mode) -> GateModel {
    if requested == gate.mode {
        gate
    } else if requested == Mode::Plan {
        GateModel { mode: Mode::Plan, auto_approve: false, plan_requested: true, ..gate }
    } else {
        GateModel {
            mode: requested,
            auto_approve: requested == Mode::Auto,
            plan: None,
            plan_requested: false,
            ..gate
        }
    }
}

/// The mode that an argument of `/mode` asks for.
pub open spec fn asked_mode(mode: Mode, argument: Seq<char>) -> Option<Mode> {
    let a = scan::trimmed(argument);
    if a.len() == 0 {
        Some(mode)
    } else if a == "next"@ {
        Some(mode.next_spec())
    } else if a == "prev"@ || a == "previous"@ {
        Some(mode.prev_spec())
    } else {
        Mode::parse_spec(a)
    }
}

/// A turn begins. It begins with a plan where one was asked for, or where the prompt asks for
/// several steps and there is no plan yet; but only where there are tools to hold.
pub open spec fn at_turn(gate: GateModel, input: Seq<char>, tools: bool) -> GateModel {
    let enter = gate.plan_requested || (gate.plan is None && multi_step(input));
    if enter && tools {
        GateModel {
            mode: Mode::Plan,
            auto_approve: false,
            plan: Some(PlanModel { status: PlanStatus::Pending, plan_json: None }),
            plan_requested: false,
            ..gate
        }
    } else {
        GateModel { plan_requested: false, ..gate }
    }
}

/// The model proposed a plan of its own with the given number of steps.
pub open spec fn at_proposal(gate: GateModel, steps: Option<usize>) -> GateModel {
    if gate.plan is None && (steps matches Some(n) && n >= 3) {
        GateModel {
            mode: Mode::Plan,
            auto_approve: false,
            plan: Some(PlanModel { status: PlanStatus::Pending, plan_json: None }),
            ..gate
        }
    } else {
        gate
    }
}

/// The call is a plan of at least three steps.
pub open spec fn plans_enough(call: CallModel, steps: Option<usize>) -> bool {
    call.name == UPDATE_PLAN_TOOL@ && (steps matches Some(n) && n >= 3)
}

/// One of the calls is a plan of at least three steps.
pub open spec fn proposes(calls: Seq<CallModel>, steps: Seq<Option<usize>>) -> bool {
    exists|i: int| 0 <= i < calls.len() && plans_enough(#[trigger] calls[i], steps[i])
}

/// The plan has this JSON now.
pub open spec fn with_json(gate: GateModel, json: Seq<char>) -> GateModel {
    match gate.plan {
        Some(plan) => GateModel {
            plan: Some(PlanModel { plan_json: Some(json), ..plan }),
            ..gate
        },
        None => gate,
    }
}

/// The user answered whether to go on with a pending plan.
pub open spec fn at_answer(gate: GateModel, answer: Option<Seq<char>>) -> GateModel {
    if gate.pending() && (answer matches Some(a) && approves_plan(a)) {
        GateModel {
            mode: Mode::Build,
            auto_approve: false,
            plan: Some(PlanModel { status: PlanStatus::Approved, ..gate.plan->0 }),
            ..gate
        }
    } else {
        gate
    }
}

impl Gate {
    /// A session begins.
    pub fn new(auto_approve: bool) -> (r: Gate)
        ensures
            r@ == opened(auto_approve),
            r@.wf(),
    {
        let gate = Gate {
            mode: if auto_approve {
                Mode::Auto
            } else {
                Mode::Build
            },
            auto_approve,
            plan: None,
            plan_requested: false,
            always_allowed: Vec::new(),
        };
        assert(gate@.always_allowed =~= seq![]);
        gate
    }

    /// Whether a plan waits for approval.
    pub fn is_pending(&self) -> (r: bool)
        ensures
            r == self@.pending(),
    {
        match &self.plan {
            Some(plan) => match plan.status {
                PlanStatus::Pending => true,
                PlanStatus::Approved => false,
            },
            None => false,
        }
    }

    /// Take up the stored plan of the session, where it has one, and the mode that goes with it.
    pub fn restore(&mut self, stored: Option<(String, String)>)
        ensures
            final(self)@ == with_plan(
                old(self)@,
                stored_plan(
                    match stored {
                        Some(pair) => Some((pair.0@, pair.1@)),
                        None => None,
                    },
                ),
            ),
            final(self)@.wf(),
    {
        self.plan = match stored {
            Some(pair) => match PlanStatus::parse(pair.1.as_str()) {
                Some(status) => Some(PlanModeState { status, plan_json: Some(pair.0) }),
                None => None,
            },
            None => None,
        };
        self.mode = if self.is_pending() {
            Mode::Plan
        } else {
            Mode::Build
        };
        self.auto_approve = false;
    }

    /// A session that is resumed at the start takes up its stored plan, where it has one.
    pub fn restore_at_start(&mut self, stored: Option<(String, String)>)
        requires
            old(self)@.wf(),
        ensures
            final(self)@ == at_start(
                old(self)@,
                match stored {
                    Some(pair) => Some((pair.0@, pair.1@)),
                    None => None,
                },
            ),
            final(self)@.wf(),
    {
        let known = match &stored {
            Some(pair) => PlanStatus::parse(pair.1.as_str()).is_some(),
            None => false,
        };
        if known {
            self.restore(stored);
        }
    }

    /// The session is over and no other takes its place yet.
    pub fn leave_session(&mut self)
        requires
            old(self)@.wf(),
        ensures
            final(self)@ == (GateModel { plan: None, plan_requested: false, ..old(self)@ }),
            final(self)@.wf(),
    {
        self.plan = None;
        self.plan_requested = false;
    }

    /// What is to be stored of the plan.
    pub fn plan_to_store(&self) -> (r: Option<(String, String)>)
        ensures
            match r {
                Some(pair) => to_store(self@) == Some((pair.0@, pair.1@)),
                None => to_store(self@) is None,
            },
    {
        match &self.plan {
            Some(plan) => match &plan.plan_json {
                Some(json) => Some((json.clone(), plan.status.name().to_owned())),
                None => None,
            },
            None => None,
        }
    }

    /// Forget what the user allowed for the rest of the session.
    pub fn clear_allowed(&mut self)
        ensures
            final(self)@ == (GateModel { always_allowed: seq![], ..old(self)@ }),
    {
        self.always_allowed = Vec::new();
        assert(text::views(self.always_allowed@) =~= seq![]);
    }

    /// `/mode`: change the mode as asked, and say whether a plan was dropped; or nothing where the
    /// argument names no mode.
    pub fn ask_mode(&mut self, argument: &str) -> (r: Option<bool>)
        requires
            old(self)@.wf(),
        ensures
            match asked_mode(old(self)@.mode, argument@) {
                Some(mode) => final(self)@ == with_mode(old(self)@, mode) && r == Some(
                    old(self)@.plan is Some && final(self)@.plan is None,
                ),
                None => final(self)@ == old(self)@ && r is None,
            },
            final(self)@.wf(),
    {
        let a = trim(argument);
        let a = a.as_str();
        let requested = if a.is_empty() {
            self.mode
        } else if same(a, "next") {
            self.mode.next()
        } else if same(a, "prev") || same(a, "previous") {
            self.mode.prev()
        } else {
            proof {
                scan::law_trim_idempotent(argument@);
            }
            match Mode::parse(a) {
                Some(mode) => mode,
                None => {
                    return None;
                },
            }
        };
        if requested == self.mode {
            return Some(false);
        }
        self.mode = requested;
        match requested {
            Mode::Plan => {
                self.auto_approve = false;
                self.plan_requested = true;
                Some(false)
            },
            Mode::Build => {
                self.auto_approve = false;
                self.plan_requested = false;
                let dropped = self.plan.is_some();
                self.plan = None;
                Some(dropped)
            },
            Mode::Auto => {
                self.auto_approve = true;
                self.plan_requested = false;
                let dropped = self.plan.is_some();
                self.plan = None;
                Some(dropped)
            },
        }
    }

    /// `/plan`: the next turn begins with a plan.
    pub fn request_plan(&mut self)
        ensures
            final(self)@ == (GateModel {
                mode: Mode::Plan,
                auto_approve: false,
                plan_requested: true,
                ..old(self)@
            }),
            final(self)@.wf(),
    {
        self.plan_requested = true;
        self.mode = Mode::Plan;
        self.auto_approve = false;
    }

    /// A turn begins; say whether it begins with a plan.
    pub fn begin_turn(&mut self, input: &str, tools: bool) -> (r: bool)
        requires
            old(self)@.wf(),
        ensures
            final(self)@ == at_turn(old(self)@, input@, tools),
            r == ((old(self)@.plan_requested || (old(self)@.plan is None && multi_step(input@)))
                && tools),
            final(self)@.wf(),
    {
        let enter = self.plan_requested || (self.plan.is_none() && looks_like_multi_step(input));
        self.plan_requested = false;
        if enter && tools {
            self.mode = Mode::Plan;
            self.auto_approve = false;
            self.plan = Some(PlanModeState { status: PlanStatus::Pending, plan_json: None });
            true
        } else {
            false
        }
    }

    /// The model proposed a plan with the given number of steps; say whether Plan Mode begins.
    pub fn propose(&mut self, steps: Option<usize>) -> (r: bool)
        requires
            old(self)@.wf(),
        ensures
            final(self)@ == at_proposal(old(self)@, steps),
            r == (old(self)@.plan is None && final(self)@.plan is Some),
            final(self)@.wf(),
    {
        let long = match steps {
            Some(n) => n >= 3,
            None => false,
        };
        if self.plan.is_none() && long {
            self.mode = Mode::Plan;
            self.auto_approve = false;
            self.plan = Some(PlanModeState { status: PlanStatus::Pending, plan_json: None });
            true
        } else {
            false
        }
    }

    /// The model asked for tools, among them perhaps a plan of at least three steps. `steps` tells of
    /// each call how many steps it plans, where it is a plan. Says whether Plan Mode begins.
    pub fn propose_among(&mut self, calls: &[ToolCall], steps: &[Option<usize>]) -> (r: bool)
        requires
            old(self)@.wf(),
            steps@.len() == calls@.len(),
        ensures
            final(self)@ == if proposes(text::views(calls@), steps@) {
                at_proposal(old(self)@, Some(3))
            } else {
                old(self)@
            },
            r == (old(self)@.plan is None && final(self)@.plan is Some),
            final(self)@.wf(),
    {
        let mut i: usize = 0;
        while i < calls.len()
            invariant
                i <= calls.len(),
                steps@.len() == calls@.len(),
                *self == *old(self),
                old(self)@.wf(),
                forall|j: int|
                    0 <= j < i ==> !plans_enough(#[trigger] text::views(calls@)[j], steps@[j]),
            decreases calls.len() - i,
        {
            let enough = match steps[i] {
                Some(n) => n >= 3,
                None => false,
            };
            if same(calls[i].name.as_str(), UPDATE_PLAN_TOOL) && enough {
                assert(plans_enough(text::views(calls@)[i as int], steps@[i as int]));
                return self.propose(Some(3));
            }
            i += 1;
        }
        false
    }

    /// A tool call comes up. Where it is a plan that can be shown, the plan is taken in; says
    /// whether the user has to approve it now.
    pub fn take_plan(&mut self, name: &str, arguments: &str, shown: bool) -> (r: bool)
        requires
            old(self)@.wf(),
        ensures
            final(self)@ == if name@ == UPDATE_PLAN_TOOL@ && shown {
                with_json(old(self)@, arguments@)
            } else {
                old(self)@
            },
            r == (name@ == UPDATE_PLAN_TOOL@ && shown && old(self)@.pending()),
            final(self)@.wf(),
    {
        if same(name, UPDATE_PLAN_TOOL) && shown {
            self.record_plan(arguments);
            return self.is_pending();
        }
        false
    }

    /// The plan has this JSON now.
    pub fn record_plan(&mut self, json: &str)
        requires
            old(self)@.wf(),
        ensures
            final(self)@ == with_json(old(self)@, json@),
            final(self)@.wf(),
    {
        if let Some(plan) = &self.plan {
            self.plan = Some(
                PlanModeState { status: plan.status, plan_json: Some(json.to_owned()) },
            );
        }
    }

    /// The user answered whether to go on with a pending plan; say whether it is approved now.
    pub fn answer_plan(&mut self, answer: Option<&str>) -> (r: bool)
        requires
            old(self)@.wf(),
        ensures
            final(self)@ == at_answer(
                old(self)@,
                text::str_view(answer),
            ),
            r == (old(self)@.pending() && !final(self)@.pending()),
            final(self)@.wf(),
    {
        let yes = match answer {
            Some(a) => is_plan_approval(a),
            None => false,
        };
        if !yes || !self.is_pending() {
            return false;
        }
        if let Some(plan) = &self.plan {
            self.plan = Some(
                PlanModeState {
                    status: PlanStatus::Approved,
                    plan_json: copy_opt(&plan.plan_json),
                },
            );
        }
        self.mode = Mode::Build;
        self.auto_approve = false;
        true
    }
}

// ---------------------------------------------------------------------------------------------
// Tool calls
// ---------------------------------------------------------------------------------------------

/// What becomes of a tool call.
#[derive(Clone, Copy, Debug, PartialEq, Eq, Structural)]
pub enum Decision {
    /// A pending plan holds it.
    Held,
    AskUser,
    SubAgent,
    Search,
    /// The profile has no model for semantic search.
    SearchUnavailable,
    Memory,
    /// The user is asked first.
    Confirm,
    Run,
    /// Nobody is there to ask.
    NobodyToAsk,
    /// It would have to be confirmed, and nobody is there to do so.
    Denied,
}

/// What becomes of a tool call in a conversation.
pub open spec fn decided(gate: GateModel, name: Seq<char>, confirm: bool, embedding: bool) -> Decision {
    if gate.pending() && mutating(name) {
        Decision::Held
    } else if name == ASK_USER_TOOL@ {
        Decision::AskUser
    } else if name == SPAWN_AGENT_TOOL@ {
        Decision::SubAgent
    } else if name == SEARCH_CODE_TOOL@ {
        if embedding {
            Decision::Search
        } else {
            Decision::SearchUnavailable
        }
    } else if of_memory(name) {
        Decision::Memory
    } else if confirm && !gate.auto_approve && !gate.always_allowed.contains(name) {
        Decision::Confirm
    } else {
        Decision::Run
    }
}

/// What becomes of a tool call where nobody is there to ask.
pub open spec fn decided_alone(name: Seq<char>, confirm: bool, auto_approve: bool, embedding: bool) -> Decision {
    if name == ASK_USER_TOOL@ {
        Decision::NobodyToAsk
    } else if name == SPAWN_AGENT_TOOL@ {
        Decision::SubAgent
    } else if name == SEARCH_CODE_TOOL@ {
        if embedding {
            Decision::Search
        } else {
            Decision::SearchUnavailable
        }
    } else if of_memory(name) {
        Decision::Memory
    } else if confirm && !auto_approve {
        Decision::Denied
    } else {
        Decision::Run
    }
}

/// What becomes of a tool call where nobody is there to ask.
pub fn decide_alone(name: &str, confirm: bool, auto_approve: bool, embedding: bool) -> (r: Decision)
    ensures
        r == decided_alone(name@, confirm, auto_approve, embedding),
{
    if same(name, ASK_USER_TOOL) {
        Decision::NobodyToAsk
    } else if same(name, SPAWN_AGENT_TOOL) {
        Decision::SubAgent
    } else if same(name, SEARCH_CODE_TOOL) {
        if embedding {
            Decision::Search
        } else {
            Decision::SearchUnavailable
        }
    } else if is_memory_tool(name) {
        Decision::Memory
    } else if confirm && !auto_approve {
        Decision::Denied
    } else {
        Decision::Run
    }
}

/// The user's answer to whether a tool may run.
#[derive(Clone, Copy, Debug, PartialEq, Eq, Structural)]
pub enum Consent {
    No,
    Once,
    Always,
}

/// What an answer means; anything but consent is a no.
pub open spec fn consent_of(answer: Option<Seq<char>>) -> Consent {
    match answer {
        None => Consent::No,
        Some(line) => {
            let a = scan::trimmed(line);
            if a == "a"@ || a == "A"@ || a == "always"@ || a == "Always"@ {
                Consent::Always
            } else if a == "y"@ || a == "Y"@ || a == "yes"@ || a == "Yes"@ {
                Consent::Once
            } else {
                Consent::No
            }
        },
    }
}

/// What an answer means.
pub fn read_consent(answer: Option<&str>) -> (r: Consent)
    ensures
        r == consent_of(
            text::str_view(answer),
        ),
{
    match answer {
        None => Consent::No,
        Some(line) => {
            let a = trim(line);
            let a = a.as_str();
            if same(a, "a") || same(a, "A") || same(a, "always") || same(a, "Always") {
                Consent::Always
            } else if same(a, "y") || same(a, "Y") || same(a, "yes") || same(a, "Yes") {
                Consent::Once
            } else {
                Consent::No
            }
        },
    }
}

impl Gate {
    /// What becomes of a tool call.
    pub fn decide(&self, name: &str, confirm: bool, embedding: bool) -> (r: Decision)
        ensures
            r == decided(self@, name@, confirm, embedding),
    {
        if self.is_pending() && is_mutating_tool(name) {
            Decision::Held
        } else if same(name, ASK_USER_TOOL) {
            Decision::AskUser
        } else if same(name, SPAWN_AGENT_TOOL) {
            Decision::SubAgent
        } else if same(name, SEARCH_CODE_TOOL) {
            if embedding {
                Decision::Search
            } else {
                Decision::SearchUnavailable
            }
        } else if is_memory_tool(name) {
            Decision::Memory
        } else if confirm && !self.auto_approve && !self.is_allowed(name) {
            Decision::Confirm
        } else {
            Decision::Run
        }
    }

    /// Whether the user allowed a tool for the rest of the session.
    pub fn is_allowed(&self, name: &str) -> (r: bool)
        ensures
            r == self@.always_allowed.contains(name@),
    {
        holds(&self.always_allowed, name)
    }

    /// The user answered whether a tool may run.
    pub fn consent(&mut self, name: &str, answer: Option<&str>) -> (r: Consent)
        requires
            old(self)@.wf(),
        ensures
            r == consent_of(
                text::str_view(answer),
            ),
            final(self)@ == (GateModel {
                always_allowed: if r == Consent::Always && !old(self)@.always_allowed.contains(
                    name@,
                ) {
                    old(self)@.always_allowed.push(name@)
                } else {
                    old(self)@.always_allowed
                },
                ..old(self)@
            }),
            final(self)@.wf(),
    {
        let consent = read_consent(answer);
        if consent == Consent::Always && !self.is_allowed(name) {
            let ghost before = self@.always_allowed;
            self.always_allowed.push(name.to_owned());
            assert(text::views(self.always_allowed@) =~= before.push(name@));
        }
        consent
    }
}

/// While a plan waits for approval, nothing that changes something runs, whatever the mode, the
/// standing permissions and the tool's own rule.
pub proof fn law_pending_plans_hold(gate: GateModel, name: Seq<char>, confirm: bool, embedding: bool)
    requires
        gate.pending(),
        mutating(name),
    ensures
        decided(gate, name, confirm, embedding) == Decision::Held,
{
}

/// A tool that needs consent runs without being asked for only in the mode that bypasses
/// approvals, or where the user allowed it for the rest of the session.
pub proof fn law_nothing_runs_unasked(gate: GateModel, name: Seq<char>, embedding: bool)
    requires
        gate.wf(),
        decided(gate, name, true, embedding) == Decision::Run,
    ensures
        gate.mode == Mode::Auto || gate.always_allowed.contains(name),
{
}

/// Where nobody is there to ask, a tool that needs consent runs only where approvals are bypassed.
pub proof fn law_nothing_runs_unasked_alone(name: Seq<char>, auto_approve: bool, embedding: bool)
    requires
        decided_alone(name, true, auto_approve, embedding) == Decision::Run,
    ensures
        auto_approve,
{
}

/// Approving a plan allows what it held, and nothing else does short of leaving
/// Plan Mode or the session.
pub proof fn law_approval_releases_what_is_held(
    gate: GateModel,
    answer: Seq<char>,
    name: Seq<char>,
    confirm: bool,
    embedding: bool,
)
    requires
        gate.wf(),
        gate.pending(),
    ensures
        approves_plan(answer) ==> !at_answer(gate, Some(answer)).pending() && decided(
            at_answer(gate, Some(answer)),
            name,
            confirm,
            embedding,
        ) != Decision::Held,
        !approves_plan(answer) ==> at_answer(gate, Some(answer)) == gate,
{
}

/// Every change of a gate keeps approvals tied to the mode.
pub proof fn law_gate_stays_consistent(
    gate: GateModel,
    requested: Mode,
    input: Seq<char>,
    tools: bool,
    steps: Option<usize>,
    json: Seq<char>,
    answer: Option<Seq<char>>,
    plan: Option<PlanModel>,
)
    requires
        gate.wf(),
    ensures
        with_mode(gate, requested).wf(),
        at_turn(gate, input, tools).wf(),
        at_proposal(gate, steps).wf(),
        with_json(gate, json).wf(),
        at_answer(gate, answer).wf(),
        with_plan(gate, plan).wf(),
{
}

// ---------------------------------------------------------------------------------------------
// What a decision changes and what it leaves
// ---------------------------------------------------------------------------------------------

/// The mode that was asked for is the mode that is taken; what the user allowed for good stays, a
/// plan is given up only by leaving for another mode, and asking for the mode that already holds
/// changes nothing.
pub proof fn law_the_asked_mode_is_taken(gate: GateModel, requested: Mode)
    ensures
        with_mode(gate, requested).mode == requested,
        with_mode(gate, requested).always_allowed == gate.always_allowed,
        requested == gate.mode ==> with_mode(gate, requested) == gate,
        requested == Mode::Plan ==> with_mode(gate, requested).plan == gate.plan,
        requested == Mode::Plan && gate.mode != Mode::Plan ==> with_mode(
            gate,
            requested,
        ).plan_requested,
        requested != Mode::Plan && gate.mode != requested ==> with_mode(gate, requested).plan is None
            && !with_mode(gate, requested).plan_requested,
        requested != gate.mode ==> (with_mode(gate, requested).auto_approve <==> requested
            == Mode::Auto),
{
}

/// A turn enters Plan Mode exactly where it was asked for, or where the prompt has several steps and
/// there is no plan yet, and there are tools to hold back. Otherwise only the wish for it is gone.
pub proof fn law_turns_plan_when_they_should(gate: GateModel, input: Seq<char>, tools: bool)
    ensures
        ({
            let after = at_turn(gate, input, tools);
            let enters = tools && (gate.plan_requested || (gate.plan is None && multi_step(input)));
            &&& enters ==> after.pending() && after.mode == Mode::Plan && !after.auto_approve
                && after.plan->0.plan_json is None
            &&& !enters ==> after.plan == gate.plan && after.mode == gate.mode && after.auto_approve
                == gate.auto_approve
            &&& !after.plan_requested
            &&& after.always_allowed == gate.always_allowed
        }),
{
}

/// Every sign of a step counts: those of two stretches of lines add up, and a line that begins as an
/// item of a list is a sign.
pub proof fn law_every_step_counts(first: Seq<Seq<char>>, second: Seq<Seq<char>>, words: Seq<char>)
    requires
        words.len() > 0,
        !text::is_white(words.last()),
    ensures
        all_signs(first + second) == all_signs(first) + all_signs(second),
        all_signs(seq!["- "@ + words]) >= 1,
        all_signs(seq!["* "@ + words]) >= 1,
    decreases second.len(),
{
    reveal_with_fuel(all_signs, 2);
    reveal_strlit("- ");
    reveal_strlit("* ");
    let dash = "- "@ + words;
    let star = "* "@ + words;
    assert(dash[0] == '-' && star[0] == '*');
    assert(dash.last() == words.last() && star.last() == words.last());
    scan::lemma_trimmed_bare(dash);
    scan::lemma_trimmed_bare(star);
    assert(dash.subrange(0, 2) =~= "- "@);
    assert(star.subrange(0, 2) =~= "* "@);
    assert(seq![dash].drop_last() =~= seq![]);
    assert(seq![star].drop_last() =~= seq![]);
    assert(all_signs(seq![dash]) == step_signs(dash));
    assert(all_signs(seq![star]) == step_signs(star));
    if second.len() == 0 {
        assert(first + second =~= first);
    } else {
        law_every_step_counts(first, second.drop_last(), words);
        assert((first + second).drop_last() =~= first + second.drop_last());
        assert((first + second).last() == second.last());
    }
}

/// A plan keeps its text to the letter, and the text stays when the plan is approved; approving
/// changes nothing else that the user decided.
pub proof fn law_plans_keep_their_text(gate: GateModel, json: Seq<char>, answer: Seq<char>)
    requires
        gate.pending(),
    ensures
        ({
            let told = with_json(gate, json);
            let after = at_answer(told, Some(answer));
            &&& told.plan matches Some(plan) && plan.plan_json == Some(json) && plan.status
                == PlanStatus::Pending
            &&& told.mode == gate.mode && told.always_allowed == gate.always_allowed
            &&& after.plan matches Some(plan) && plan.plan_json == Some(json)
            &&& approves_plan(answer) ==> after.plan->0.status == PlanStatus::Approved && after.mode
                == Mode::Build && !after.auto_approve
            &&& after.always_allowed == gate.always_allowed
            &&& to_store(after) matches Some(pair) && pair.0 == json
        }),
{
}

/// A plan of at least three steps is held until it is approved; a shorter one, or one where there is
/// a plan already, changes nothing.
pub proof fn law_long_plans_are_held(gate: GateModel, steps: usize)
    ensures
        gate.plan is None && steps >= 3 ==> at_proposal(gate, Some(steps)).pending() && at_proposal(
            gate,
            Some(steps),
        ).mode == Mode::Plan,
        steps < 3 ==> at_proposal(gate, Some(steps)) == gate,
        at_proposal(gate, None) == gate,
        gate.plan is Some ==> at_proposal(gate, Some(steps)) == gate,
        at_proposal(gate, Some(steps)).always_allowed == gate.always_allowed,
{
}

/// While a plan waits, what changes something is held and reading goes on: commands and patches wait,
/// files and directories can be looked at.
pub proof fn law_reading_goes_on_while_a_plan_waits(gate: GateModel, confirm: bool, embedding: bool)
    requires
        gate.pending(),
    ensures
        decided(gate, PATCH_FILE_TOOL@, confirm, embedding) == Decision::Held,
        decided(gate, RUN_COMMAND_TOOL@, confirm, embedding) == Decision::Held,
        decided(gate, crate::tools::READ_FILE_TOOL@, false, embedding) == Decision::Run,
        decided(gate, crate::tools::LIST_DIRECTORY_TOOL@, false, embedding) == Decision::Run,
        decided(gate, ASK_USER_TOOL@, confirm, embedding) == Decision::AskUser,
        decided(gate, SEARCH_CODE_TOOL@, confirm, true) == Decision::Search,
{
    reveal_strlit("read_file");
    assert("read_file"@.len() == 9);
    reveal_strlit("list_directory");
    assert("list_directory"@.len() == 14 && "list_directory"@[0] == 'l');
    reveal_strlit("run_command");
    assert("run_command"@.len() == 11 && "run_command"@[0] == 'r');
    reveal_strlit("patch_file");
    assert("patch_file"@.len() == 10);
    reveal_strlit("remember");
    assert("remember"@.len() == 8 && "remember"@[0] == 'r');
    reveal_strlit("update_memory");
    assert("update_memory"@.len() == 13);
    reveal_strlit("forget");
    assert("forget"@.len() == 6);
    reveal_strlit("ask_user");
    assert("ask_user"@.len() == 8 && "ask_user"@[0] == 'a');
    reveal_strlit("spawn_agent");
    assert("spawn_agent"@.len() == 11 && "spawn_agent"@[0] == 's' && "spawn_agent"@[1] == 'p');
    reveal_strlit("search_code");
    assert("search_code"@.len() == 11 && "search_code"@[0] == 's' && "search_code"@[1] == 'e');
    reveal_strlit("command_status");
    assert("command_status"@.len() == 14 && "command_status"@[0] == 'c');
    reveal_strlit("stop_command");
    assert("stop_command"@.len() == 12);
}

/// What needs consent is asked for, unless the user allowed it for good or lets everything run; what
/// needs none just runs.
pub proof fn law_consent_is_asked_for(gate: GateModel, confirm: bool, embedding: bool)
    requires
        !gate.pending(),
    ensures
        ({
            let allowed = gate.auto_approve || gate.always_allowed.contains(RUN_COMMAND_TOOL@);
            &&& decided(gate, RUN_COMMAND_TOOL@, true, embedding) == if allowed {
                Decision::Run
            } else {
                Decision::Confirm
            }
            &&& decided(gate, RUN_COMMAND_TOOL@, false, embedding) == Decision::Run
            &&& decided_alone(RUN_COMMAND_TOOL@, true, false, embedding) == Decision::Denied
            &&& decided_alone(RUN_COMMAND_TOOL@, true, true, embedding) == Decision::Run
            &&& decided_alone(RUN_COMMAND_TOOL@, false, false, embedding) == Decision::Run
            &&& decided_alone(ASK_USER_TOOL@, confirm, true, embedding) == Decision::NobodyToAsk
            &&& decided(gate, REMEMBER_TOOL@, confirm, embedding) == Decision::Memory
            &&& decided(gate, FORGET_TOOL@, confirm, embedding) == Decision::Memory
            &&& decided(gate, UPDATE_MEMORY_TOOL@, confirm, embedding) == Decision::Memory
            &&& decided(gate, SPAWN_AGENT_TOOL@, confirm, embedding) == Decision::SubAgent
        }),
{
    reveal_strlit("read_file");
    assert("read_file"@.len() == 9);
    reveal_strlit("list_directory");
    assert("list_directory"@.len() == 14 && "list_directory"@[0] == 'l');
    reveal_strlit("run_command");
    assert("run_command"@.len() == 11 && "run_command"@[0] == 'r');
    reveal_strlit("patch_file");
    assert("patch_file"@.len() == 10);
    reveal_strlit("remember");
    assert("remember"@.len() == 8 && "remember"@[0] == 'r');
    reveal_strlit("update_memory");
    assert("update_memory"@.len() == 13);
    reveal_strlit("forget");
    assert("forget"@.len() == 6);
    reveal_strlit("ask_user");
    assert("ask_user"@.len() == 8 && "ask_user"@[0] == 'a');
    reveal_strlit("spawn_agent");
    assert("spawn_agent"@.len() == 11 && "spawn_agent"@[0] == 's' && "spawn_agent"@[1] == 'p');
    reveal_strlit("search_code");
    assert("search_code"@.len() == 11 && "search_code"@[0] == 's' && "search_code"@[1] == 'e');
    reveal_strlit("command_status");
    assert("command_status"@.len() == 14 && "command_status"@[0] == 'c');
    reveal_strlit("stop_command");
    assert("stop_command"@.len() == 12);
}

/// Only a clear yes is consent: an answer that begins otherwise, a long one, or none at all, is a no.
/// A plan is likewise approved only by a word that says so.
pub proof fn law_only_a_clear_yes_is_consent(answer: Seq<char>)
    requires
        answer.len() > 0,
        !text::is_white(answer[0]),
        !text::is_white(answer.last()),
    ensures
        consent_of(None) == Consent::No,
        consent_of(Some(Seq::empty())) == Consent::No,
        answer[0] != 'a' && answer[0] != 'A' && answer[0] != 'y' && answer[0] != 'Y' ==> consent_of(
            Some(answer),
        ) == Consent::No && !approves_plan(answer),
        answer.len() > 8 ==> consent_of(Some(answer)) == Consent::No && !approves_plan(answer),
        answer[0] == 'y' || answer[0] == 'Y' ==> consent_of(Some(answer)) != Consent::Always,
        answer[0] == 'a' || answer[0] == 'A' ==> consent_of(Some(answer)) != Consent::Once,
{
    reveal_strlit("a");
    reveal_strlit("A");
    reveal_strlit("always");
    reveal_strlit("Always");
    reveal_strlit("y");
    reveal_strlit("Y");
    reveal_strlit("yes");
    reveal_strlit("Yes");
    reveal_strlit("approve");
    reveal_strlit("approved");
    scan::lemma_trimmed_bare(answer);
    scan::law_lower_case(answer, 0);
    assert("a"@.len() == 1 && "a"@[0] == 'a');
    assert("A"@.len() == 1 && "A"@[0] == 'A');
    assert("always"@.len() == 6 && "always"@[0] == 'a');
    assert("Always"@.len() == 6 && "Always"@[0] == 'A');
    assert("y"@.len() == 1 && "y"@[0] == 'y');
    assert("Y"@.len() == 1 && "Y"@[0] == 'Y');
    assert("yes"@.len() == 3 && "yes"@[0] == 'y');
    assert("Yes"@.len() == 3 && "Yes"@[0] == 'Y');
    assert("approve"@.len() == 7 && "approve"@[0] == 'a');
    assert("approved"@.len() == 8 && "approved"@[0] == 'a');
    let none: Seq<char> = Seq::empty();
    assert(scan::trimmed(none).len() == 0) by {
        scan::lemma_span_bound(none, scan::white());
    }
}

/// A mode is asked for by its name, by none for the one that holds, or as the one after or before it.
pub proof fn law_modes_are_asked_for_by_name(mode: Mode, wanted: Mode)
    ensures
        asked_mode(mode, wanted.label_spec()) == Some(wanted),
        asked_mode(mode, Seq::empty()) == Some(mode),
        asked_mode(mode, "next"@) == Some(mode.next_spec()),
        asked_mode(mode, "prev"@) == Some(mode.prev_spec()),
{
    law_modes_parse_their_labels(wanted);
    reveal_strlit("build");
    reveal_strlit("auto");
    reveal_strlit("plan");
    reveal_strlit("next");
    reveal_strlit("prev");
    reveal_strlit("previous");
    let name = wanted.label_spec();
    assert("build"@.len() == 5 && "build"@[0] == 'b' && "build"@[4] == 'd');
    assert("auto"@.len() == 4 && "auto"@[0] == 'a' && "auto"@[3] == 'o');
    assert("plan"@.len() == 4 && "plan"@[0] == 'p' && "plan"@[1] == 'l' && "plan"@[3] == 'n');
    assert("next"@.len() == 4 && "next"@[0] == 'n' && "next"@[3] == 't');
    assert("prev"@.len() == 4 && "prev"@[0] == 'p' && "prev"@[1] == 'r' && "prev"@[3] == 'v');
    assert("previous"@.len() == 8);
    scan::lemma_trimmed_bare(name);
    scan::lemma_trimmed_bare("next"@);
    scan::lemma_trimmed_bare("prev"@);
    let none: Seq<char> = Seq::empty();
    assert(scan::trimmed(none).len() == 0) by {
        scan::lemma_span_bound(none, scan::white());
    }
}

/// A conversation begins as it was asked to, with nothing allowed and no plan; a plan that was stored
/// comes back, and where none was everything stays.
pub proof fn law_conversations_begin_as_asked(
    auto_approve: bool,
    gate: GateModel,
    json: Seq<char>,
    status: PlanStatus,
)
    ensures
        opened(auto_approve).mode == if auto_approve {
            Mode::Auto
        } else {
            Mode::Build
        },
        opened(auto_approve).plan is None,
        opened(auto_approve).always_allowed.len() == 0,
        at_start(gate, None) == gate,
        at_start(gate, Some((json, status.name_spec()))).plan matches Some(plan) && plan.plan_json
            == Some(json) && plan.status == status,
        status == PlanStatus::Pending ==> at_start(
            gate,
            Some((json, status.name_spec())),
        ).mode == Mode::Plan,
        !at_start(gate, Some((json, status.name_spec()))).auto_approve,
{
    law_plan_status_round_trip(status);
}

} // verus!
