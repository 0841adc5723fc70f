//! The capability gate that every tool call passes.
//!
//! Two rules apply one after the other. A call that needs a right which the
//! session does not have is denied in every mode. Of the other calls the control
//! mode decides which wait for the user.

use vstd::prelude::*;
use crate::agent::capability;
use crate::agent::capability::Capability;
use crate::agent::capability::CapabilitySet;
use crate::agent::capability::CapabilityView;
use crate::agent::error::Error;
use crate::agent::error::ErrorView;
use crate::agent::interrupt::InterruptKind;
use crate::agent::mode::ControlMode;
use crate::agent::surface::ChoiceStyle;
use crate::agent::surface::ChoiceView;
use crate::agent::surface::InterruptChoice;
use crate::agent::surface::SignalView;
use crate::agent::surface::SurfaceSignal;
use crate::agent::types::ApprovalDecision;
use crate::agent::types::ToolCall;
use crate::agent::types::ToolCallView;
use crate::text;

verus! {

/// The tools that wait for the user in assisted mode.
pub open spec fn destructive_tools() -> Seq<&'static str> {
    seq![
        "fs_delete", "fs_move", "fs_write",
        "process_kill", "systemd_unit_stop", "systemd_unit_restart",
        "agent_spawn", "agent_kill",
        "network_outbound_post", "secrets_write",
        "session_migrate", "session_close",
    ]
}

/// Whether a tool waits for the user in assisted mode.
pub open spec fn destructive(tool: Seq<char>) -> bool {
    exists|i: int| 0 <= i < destructive_tools().len() && (#[trigger] destructive_tools()[i])@ == tool
}

/// Whether a tool waits for the user in assisted mode.
pub fn is_destructive(tool_name: &str) -> (r: bool)
    ensures
        r == destructive(tool_name@),
{
    let list: Vec<&'static str> = vec![
        "fs_delete", "fs_move", "fs_write",
        "process_kill", "systemd_unit_stop", "systemd_unit_restart",
        "agent_spawn", "agent_kill",
        "network_outbound_post", "secrets_write",
        "session_migrate", "session_close",
    ];
    assert(list@ =~= destructive_tools());
    let mut i: usize = 0;
    while i < list.len()
        invariant
            i <= list.len(),
            list@ == destructive_tools(),
            forall|k: int| 0 <= k < i ==> (#[trigger] destructive_tools()[k])@ != tool_name@,
        decreases list.len() - i,
    {
        if text::same_text(list[i], tool_name) {
            assert(destructive_tools()[i as int]@ == tool_name@);
            return true;
        }
        i += 1;
    }
    false
}

// ---------------------------------------------------------------------------
// What the capability gate says and records
// ---------------------------------------------------------------------------

/// What becomes of a call.
pub enum GateDecision {
    /// The call runs.
    Proceed,
    /// The call does not run.
    Skip { reason: String },
    /// The user wants something else.
    Redirect { new_intent: String },
}

/// What a decision is.
#[verifier::ext_equal]
pub enum DecisionView {
    Proceed,
    Skip(Seq<char>),
    Redirect(Seq<char>),
}

impl View for GateDecision {
    type V = DecisionView;

    open spec fn view(&self) -> DecisionView {
        match self {
            GateDecision::Proceed => DecisionView::Proceed,
            GateDecision::Skip { reason } => DecisionView::Skip(reason@),
            GateDecision::Redirect { new_intent } => DecisionView::Redirect(new_intent@),
        }
    }
}

/// What was done about a call.
#[derive(Debug, Clone, Copy, PartialEq, Eq, Structural)]
pub enum AuditAction {
    Allowed,
    Bypassed,
    Approved,
    Rejected,
    TimedOut,
    Denied,
}

/// An entry of the audit log.
pub struct GateEvent {
    pub tool_name: String,
    pub action: AuditAction,
    pub timestamp_ms: u64,
}

/// What an entry is.
#[verifier::ext_equal]
pub struct GateEventView {
    pub tool_name: Seq<char>,
    pub action: AuditAction,
    pub timestamp_ms: u64,
}

impl View for GateEvent {
    type V = GateEventView;

    open spec fn view(&self) -> GateEventView {
        GateEventView {
            tool_name: self.tool_name@,
            action: self.action,
            timestamp_ms: self.timestamp_ms,
        }
    }
}

/// What a log holds.
pub open spec fn log_view(log: Seq<GateEvent>) -> Seq<GateEventView> {
    Seq::new(log.len(), |i: int| log[i]@)
}

/// A question to the user: what to show, and how long to wait.
pub struct ApprovalRequest {
    pub request_id: String,
    pub signals: Vec<SurfaceSignal>,
    pub timeout_secs: u64,
}

/// What a question is.
#[verifier::ext_equal]
pub struct ApprovalRequestView {
    pub request_id: Seq<char>,
    pub signals: Seq<SignalView>,
    pub timeout_secs: u64,
}

impl View for ApprovalRequest {
    type V = ApprovalRequestView;

    open spec fn view(&self) -> ApprovalRequestView {
        ApprovalRequestView {
            request_id: self.request_id@,
            signals: Seq::new(self.signals@.len(), |i: int| self.signals@[i]@),
            timeout_secs: self.timeout_secs,
        }
    }
}

/// What the capability gate does with a call: it decides, or it asks first.
pub enum GateStep {
    Decided(GateDecision),
    Ask(ApprovalRequest),
}

/// What a step is.
#[verifier::ext_equal]
pub enum GateStepView {
    Decided(DecisionView),
    Ask(ApprovalRequestView),
}

impl View for GateStep {
    type V = GateStepView;

    open spec fn view(&self) -> GateStepView {
        match self {
            GateStep::Decided(d) => GateStepView::Decided(d@),
            GateStep::Ask(r) => GateStepView::Ask(r@),
        }
    }
}

/// The name of the question about a tool.
pub open spec fn request_name(tool: Seq<char>, ticket: Seq<char>) -> Seq<char> {
    "gate-"@ + tool + "-"@ + ticket
}

/// The question about a call: an approval dialog, and an interrupt with the two
/// choices. In human mode the user has five minutes, else one.
pub open spec fn question(call: ToolCallView, mode: ControlMode, ticket: Seq<char>) ->
    ApprovalRequestView {
    let id = request_name(call.name, ticket);
    ApprovalRequestView {
        request_id: id,
        signals: seq![
            SignalView::ApprovalRequired {
                request_id: id,
                tool_name: call.name,
                description: "Allow `"@ + call.name + "` to run?"@,
                input_preview: call.input,
            },
            SignalView::Interrupt {
                interrupt_id: id,
                kind: InterruptKind::Confirmation,
                message: "Waiting for approval: "@ + call.name,
                choices: seq![
                    ChoiceView {
                        id: "approve"@,
                        label: "Approve"@,
                        style: ChoiceStyle::Primary,
                    },
                    ChoiceView {
                        id: "reject"@,
                        label: "Reject"@,
                        style: ChoiceStyle::Destructive,
                    },
                ],
            },
        ],
        timeout_secs: if mode == ControlMode::HumanMode {
            300
        } else {
            60
        },
    }
}

// ---------------------------------------------------------------------------
// The capability gate
// ---------------------------------------------------------------------------

/// What a gate is.
#[verifier::ext_equal]
pub struct GateView {
    /// The rights of the session.
    pub capabilities: Set<CapabilityView>,
    /// The questions that wait for an answer.
    pub pending: Set<Seq<char>>,
    pub audit: Seq<GateEventView>,
}

impl GateView {
    /// The capability gate with one more entry in its log.
    pub open spec fn logged(self, tool: Seq<char>, action: AuditAction, now_ms: u64) -> GateView {
        GateView {
            audit: self.audit.push(
                GateEventView { tool_name: tool, action, timestamp_ms: now_ms },
            ),
            ..self
        }
    }
}

/// Whether the user has to be asked about a call.
pub open spec fn must_ask(mode: ControlMode, tool: Seq<char>) -> bool {
    match mode {
        ControlMode::BypassPermissions => false,
        ControlMode::AgentMode => false,
        ControlMode::AssistedMode => destructive(tool),
        ControlMode::HumanMode => true,
    }
}

/// The first of the needed rights that is not granted.
pub open spec fn first_missing(
    granted: Set<CapabilityView>,
    needed: Seq<CapabilityView>,
) -> Option<CapabilityView>
    decreases needed.len(),
{
    if needed.len() == 0 {
        None
    } else if !granted.contains(needed[0]) {
        Some(needed[0])
    } else {
        first_missing(granted, needed.drop_first())
    }
}

/// The check of a call: the capability gate after it, and what the capability gate does.
pub open spec fn check_view(
    g: GateView,
    call: ToolCallView,
    mode: ControlMode,
    needed: Seq<CapabilityView>,
    ticket: Seq<char>,
    now_ms: u64,
) -> (GateView, GateStepView) {
    match first_missing(g.capabilities, needed) {
        Some(cap) => (
            g.logged(call.name, AuditAction::Denied, now_ms),
            GateStepView::Decided(
                DecisionView::Skip("capability denied: "@ + cap.printed()),
            ),
        ),
        None => if must_ask(mode, call.name) {
            (
                GateView {
                    pending: g.pending.insert(request_name(call.name, ticket)),
                    ..g
                },
                GateStepView::Ask(question(call, mode, ticket)),
            )
        } else {
            (
                g.logged(
                    call.name,
                    if mode == ControlMode::BypassPermissions {
                        AuditAction::Bypassed
                    } else {
                        AuditAction::Allowed
                    },
                    now_ms,
                ),
                GateStepView::Decided(DecisionView::Proceed),
            )
        },
    }
}

/// What came of a question: an answer, or none in time.
pub enum ApprovalAnswer {
    Answered(ApprovalDecision),
    Silent,
}

/// The end of a question: the capability gate after it, and what becomes of the call. That
/// no answer came in time, or none can come any more, is an error.
pub open spec fn conclude_view(
    g: GateView,
    tool: Seq<char>,
    answer: ApprovalAnswer,
    now_ms: u64,
) -> (GateView, Result<DecisionView, ErrorView>) {
    match answer {
        ApprovalAnswer::Answered(ApprovalDecision::Approved) => (
            g.logged(tool, AuditAction::Approved, now_ms),
            Ok(DecisionView::Proceed),
        ),
        ApprovalAnswer::Answered(ApprovalDecision::Rejected) => (
            g.logged(tool, AuditAction::Rejected, now_ms),
            Ok(DecisionView::Skip("Rejected by user"@)),
        ),
        ApprovalAnswer::Answered(ApprovalDecision::Redirected { new_intent }) => (
            g,
            Ok(DecisionView::Redirect(new_intent@)),
        ),
        ApprovalAnswer::Silent => (
            g.logged(tool, AuditAction::TimedOut, now_ms),
            Err(ErrorView::Transport("Approval timed out"@)),
        ),
    }
}

/// What came of a question.
pub open spec fn decision_result(r: Result<GateDecision, Error>) -> Result<
    DecisionView,
    ErrorView,
> {
    match r {
        Ok(d) => Ok(d@),
        Err(e) => Err(e@),
    }
}

/// The capability gate of a session.
pub struct CapabilityGate {
    capabilities: CapabilitySet,
    pending: Vec<String>,
    audit: Vec<GateEvent>,
}

impl View for CapabilityGate {
    type V = GateView;

    closed spec fn view(&self) -> GateView {
        GateView {
            capabilities: self.capabilities@,
            pending: text::views(self.pending@).to_set(),
            audit: log_view(self.audit@),
        }
    }
}

fn choice(id: &str, label: &str, style: ChoiceStyle) -> (c: InterruptChoice)
    ensures
        c@ == (ChoiceView { id: id@, label: label@, style }),
{
    InterruptChoice { id: id.to_string(), label: label.to_string(), style }
}

fn make_question(call: &ToolCall, mode: ControlMode, request_id: &String, ticket: &str) -> (request:
    ApprovalRequest)
    requires
        request_id@ == request_name(call.name@, ticket@),
    ensures
        request@ == question(call@, mode, ticket@),
{
    let mut description = "Allow `".to_string();
    description.append(call.name.as_str());
    description.append("` to run?");
    let message = "Waiting for approval: ".to_string().concat(call.name.as_str());
    let mut choices: Vec<InterruptChoice> = Vec::new();
    choices.push(choice("approve", "Approve", ChoiceStyle::Primary));
    choices.push(choice("reject", "Reject", ChoiceStyle::Destructive));
    let ghost shown = Seq::new(choices@.len(), |i: int| choices@[i]@);
    assert(shown =~= seq![
        ChoiceView { id: "approve"@, label: "Approve"@, style: ChoiceStyle::Primary },
        ChoiceView { id: "reject"@, label: "Reject"@, style: ChoiceStyle::Destructive },
    ]);
    let dialog = SurfaceSignal::ApprovalRequired {
        request_id: request_id.clone(),
        tool_name: call.name.clone(),
        description,
        input_preview: call.input.copy(),
    };
    let interrupt = SurfaceSignal::Interrupt {
        interrupt_id: request_id.clone(),
        kind: InterruptKind::Confirmation,
        message,
        choices,
    };
    let mut signals: Vec<SurfaceSignal> = Vec::new();
    signals.push(dialog);
    signals.push(interrupt);
    let timeout_secs: u64 = if mode == ControlMode::HumanMode {
        300
    } else {
        60
    };
    let request = ApprovalRequest { request_id: request_id.clone(), signals, timeout_secs };
    assert(request@.signals =~= question(call@, mode, ticket@).signals);
    request
}

impl CapabilityGate {
    /// The capability gate of a session with these rights.
    pub fn new(capabilities: CapabilitySet) -> (gate: Self)
        ensures
            gate@ == (GateView {
                capabilities: capabilities@,
                pending: Set::empty(),
                audit: Seq::empty(),
            }),
    {
        let gate = CapabilityGate { capabilities, pending: Vec::new(), audit: Vec::new() };
        assert(gate@.pending =~= Set::<Seq<char>>::empty());
        assert(gate@.audit =~= Seq::<GateEventView>::empty());
        gate
    }

    /// Checks a call before it runs. `needed` are the rights that the tool needs,
    /// and `ticket` makes the name of a question its own.
    pub fn check(
        &mut self,
        call: &ToolCall,
        mode: ControlMode,
        needed: &Vec<Capability>,
        ticket: &str,
        now_ms: u64,
    ) -> (step: GateStep)
        ensures
            check_view(
                old(self)@,
                call@,
                mode,
                capability::caps_view(needed@),
                ticket@,
                now_ms,
            ) == (final(self)@, step@),
    {
        if let Some(reason) = self.missing(needed) {
            self.audit_decision(call, AuditAction::Denied, now_ms);
            return GateStep::Decided(GateDecision::Skip { reason });
        }
        let ask = match mode {
            ControlMode::BypassPermissions => false,
            ControlMode::AgentMode => false,
            ControlMode::AssistedMode => is_destructive(call.name.as_str()),
            ControlMode::HumanMode => true,
        };
        if ask {
            let mut request_id = "gate-".to_string();
            request_id.append(call.name.as_str());
            request_id.append("-");
            request_id.append(ticket);
            let request = make_question(call, mode, &request_id, ticket);
            let ghost before = text::views(self.pending@);
            self.pending.push(request_id);
            proof {
                let after = text::views(self.pending@);
                assert(after =~= before.push(request_id@));
                assert forall|x: Seq<char>| after.to_set().contains(x) == before.to_set().insert(
                    request_id@,
                ).contains(x) by {
                    if before.contains(x) {
                        let k = choose|k: int| 0 <= k < before.len() && before[k] == x;
                        assert(after[k] == x);
                    }
                    assert(after[before.len() as int] == request_id@);
                }
                assert(self@.pending =~= old(self)@.pending.insert(request_id@));
            }
            GateStep::Ask(request)
        } else {
            let action = if mode == ControlMode::BypassPermissions {
                AuditAction::Bypassed
            } else {
                AuditAction::Allowed
            };
            self.audit_decision(call, action, now_ms);
            GateStep::Decided(GateDecision::Proceed)
        }
    }

    /// The reason to deny, where a needed right is not granted.
    fn missing(&self, needed: &Vec<Capability>) -> (reason: Option<String>)
        ensures
            text::opt_view(reason) == (match first_missing(
                self@.capabilities,
                capability::caps_view(needed@),
            ) {
                Some(cap) => Some("capability denied: "@ + cap.printed()),
                None => None,
            }),
    {
        let ghost all = capability::caps_view(needed@);
        let mut i: usize = 0;
        assert(all.skip(0) =~= all);
        while i < needed.len()
            invariant
                i <= needed.len(),
                all == capability::caps_view(needed@),
                first_missing(self@.capabilities, all) == first_missing(
                    self@.capabilities,
                    all.skip(i as int),
                ),
            decreases needed.len() - i,
        {
            assert(all.skip(i as int)[0] == needed@[i as int]@);
            assert(all.skip(i as int).drop_first() =~= all.skip(i + 1));
            if !self.capabilities.contains(&needed[i]) {
                let mut reason = "capability denied: ".to_string();
                reason.append(needed[i].text().as_str());
                return Some(reason);
            }
            i += 1;
        }
        None
    }

    /// Takes the answer to a question in. It is passed on only where the question
    /// was waiting, and answers it once.
    pub fn resolve_approval(&mut self, request_id: &str, decision: ApprovalDecision) -> (answer:
        Option<ApprovalDecision>)
        ensures
            final(self)@ == (GateView {
                pending: old(self)@.pending.remove(request_id@),
                ..old(self)@
            }),
            answer == (if old(self)@.pending.contains(request_id@) {
                Some(decision)
            } else {
                None
            }),
    {
        let ghost all = text::views(self.pending@);
        let mut kept: Vec<String> = Vec::new();
        let mut found = false;
        let mut i: usize = 0;
        while i < self.pending.len()
            invariant
                i <= self.pending.len(),
                all == text::views(self.pending@),
                self@ == old(self)@,
                found == exists|k: int| 0 <= k < i && all[k] == request_id@,
                forall|x: Seq<char>| #[trigger]
                    text::views(kept@).contains(x) <==> x != request_id@ && exists|k: int|
                        0 <= k < i && #[trigger] all[k] == x,
            decreases self.pending.len() - i,
        {
            assert(all[i as int] == self.pending@[i as int]@);
            let ghost before = text::views(kept@);
            if text::same_text(self.pending[i].as_str(), request_id) {
                found = true;
                assert forall|x: Seq<char>| #[trigger]
                    text::views(kept@).contains(x) <==> x != request_id@ && exists|k: int|
                        0 <= k < i + 1 && #[trigger] all[k] == x by {
                    assert(before.contains(x) <==> x != request_id@ && exists|k: int|
                        0 <= k < i && #[trigger] all[k] == x);
                }
            } else {
                let id = self.pending[i].clone();
                proof {
                    text::lemma_views_push(kept@, id);
                }
                kept.push(id);
                let ghost after = text::views(kept@);
                assert forall|x: Seq<char>| #[trigger]
                    text::views(kept@).contains(x) <==> x != request_id@ && exists|k: int|
                        0 <= k < i + 1 && #[trigger] all[k] == x by {
                    assert(before.contains(x) <==> x != request_id@ && exists|k: int|
                        0 <= k < i && #[trigger] all[k] == x);
                    if before.contains(x) {
                        let k = choose|k: int| 0 <= k < before.len() && before[k] == x;
                        assert(after[k] == x);
                    }
                    if x == all[i as int] {
                        assert(after[before.len() as int] == x);
                    }
                    if after.contains(x) {
                        let k = choose|k: int| 0 <= k < after.len() && after[k] == x;
                        if k < before.len() {
                            assert(before[k] == x);
                        }
                    }
                }
            }
            i += 1;
        }
        proof {
            assert forall|x: Seq<char>| text::views(kept@).to_set().contains(x) == all.to_set().remove(
                request_id@,
            ).contains(x) by {
                assert(text::views(kept@).contains(x) <==> x != request_id@ && exists|k: int|
                    0 <= k < i && #[trigger] all[k] == x);
            }
        }
        self.pending = kept;
        assert(self@.pending =~= old(self)@.pending.remove(request_id@));
        if found {
            Some(decision)
        } else {
            None
        }
    }

    /// Ends a question with its answer, or with none in time, which is an error.
    pub fn conclude(&mut self, call: &ToolCall, answer: ApprovalAnswer, now_ms: u64) -> (decision:
        Result<GateDecision, Error>)
        ensures
            conclude_view(old(self)@, call.name@, answer, now_ms) == (
                final(self)@,
                decision_result(decision),
            ),
    {
        match answer {
            ApprovalAnswer::Answered(ApprovalDecision::Approved) => {
                self.audit_decision(call, AuditAction::Approved, now_ms);
                Ok(GateDecision::Proceed)
            },
            ApprovalAnswer::Answered(ApprovalDecision::Rejected) => {
                self.audit_decision(call, AuditAction::Rejected, now_ms);
                Ok(GateDecision::Skip { reason: "Rejected by user".to_string() })
            },
            ApprovalAnswer::Answered(ApprovalDecision::Redirected { new_intent }) => {
                Ok(GateDecision::Redirect { new_intent })
            },
            ApprovalAnswer::Silent => {
                self.audit_decision(call, AuditAction::TimedOut, now_ms);
                Err(Error::Transport("Approval timed out".to_string()))
            },
        }
    }

    /// The audit log.
    pub fn audit_log(&self) -> (log: Vec<GateEvent>)
        ensures
            log_view(log@) == self@.audit,
    {
        let mut log: Vec<GateEvent> = Vec::new();
        let mut i: usize = 0;
        while i < self.audit.len()
            invariant
                i <= self.audit.len(),
                log.len() == i,
                forall|k: int| 0 <= k < i ==> (#[trigger] log@[k])@ == self.audit@[k]@,
            decreases self.audit.len() - i,
        {
            log.push(
                GateEvent {
                    tool_name: self.audit[i].tool_name.clone(),
                    action: self.audit[i].action,
                    timestamp_ms: self.audit[i].timestamp_ms,
                },
            );
            i += 1;
        }
        assert(log_view(log@) =~= self@.audit);
        log
    }

    fn audit_decision(&mut self, call: &ToolCall, action: AuditAction, now_ms: u64)
        ensures
            final(self)@ == old(self)@.logged(call.name@, action, now_ms),
    {
        let event = GateEvent { tool_name: call.name.clone(), action, timestamp_ms: now_ms };
        self.audit.push(event);
        assert(self@.audit =~= old(self)@.audit.push(event@));
    }
}

// ---------------------------------------------------------------------------
// What the capability gate promises
// ---------------------------------------------------------------------------

proof fn lemma_first_missing(granted: Set<CapabilityView>, needed: Seq<CapabilityView>)
    ensures
        first_missing(granted, needed) is None <==> forall|i: int|
            0 <= i < needed.len() ==> granted.contains(#[trigger] needed[i]),
    decreases needed.len(),
{
    if needed.len() > 0 && granted.contains(needed[0]) {
        let rest = needed.drop_first();
        lemma_first_missing(granted, rest);
        if forall|i: int| 0 <= i < rest.len() ==> granted.contains(#[trigger] rest[i]) {
            assert forall|i: int| 0 <= i < needed.len() implies granted.contains(
                #[trigger] needed[i],
            ) by {
                if i > 0 {
                    assert(granted.contains(rest[i - 1]));
                }
            }
        }
        if forall|i: int| 0 <= i < needed.len() ==> granted.contains(#[trigger] needed[i]) {
            assert forall|i: int| 0 <= i < rest.len() implies granted.contains(
                #[trigger] rest[i],
            ) by {
                assert(granted.contains(needed[i + 1]));
            }
        }
    }
}

/// A call that needs a right which the session does not have is never run,
/// whatever the mode, and the user is not asked about it. A call that has its
/// rights runs at once where the mode does not ask, and the user is asked about
/// it where the mode asks.
pub proof fn lemma_gate(
    g: GateView,
    call: ToolCallView,
    mode: ControlMode,
    needed: Seq<CapabilityView>,
    ticket: Seq<char>,
    now_ms: u64,
)
    ensures
        ({
            let (after, step) = check_view(g, call, mode, needed, ticket, now_ms);
            let granted = forall|i: int|
                0 <= i < needed.len() ==> g.capabilities.contains(#[trigger] needed[i]);
            &&& step == GateStepView::Decided(DecisionView::Proceed) <==> granted && !must_ask(
                mode,
                call.name,
            )
            &&& step is Ask <==> granted && must_ask(mode, call.name)
            &&& !granted ==> step is Decided && step->Decided_0 is Skip
            &&& mode == ControlMode::BypassPermissions || mode == ControlMode::AgentMode ==> !(
            step is Ask)
            &&& mode == ControlMode::HumanMode && granted ==> step is Ask
            &&& after.capabilities == g.capabilities
        }),
{
    lemma_first_missing(g.capabilities, needed);
}

/// Every call that is decided at once leaves one entry in the log, and so does
/// every question that ends otherwise than by a new direction. A question without an answer
/// is an error, and the only one.
pub proof fn lemma_audit(
    g: GateView,
    call: ToolCallView,
    mode: ControlMode,
    needed: Seq<CapabilityView>,
    ticket: Seq<char>,
    now_ms: u64,
    answer: ApprovalAnswer,
)
    ensures
        ({
            let (after, step) = check_view(g, call, mode, needed, ticket, now_ms);
            &&& step is Decided ==> after.audit.len() == g.audit.len() + 1
                && after.audit.last().tool_name == call.name
            &&& step is Ask ==> after.audit == g.audit
        }),
        ({
            let (after, decision) = conclude_view(g, call.name, answer, now_ms);
            let redirected = decision matches Ok(d) && d is Redirect;
            &&& redirected ==> after.audit == g.audit
            &&& !redirected ==> after.audit.len() == g.audit.len() + 1
                && after.audit.last().tool_name == call.name
            &&& decision is Err <==> answer is Silent
        }),
{
}

/// The tools that wait for the user in assisted mode are those that delete, move or write
/// files, that stop processes, units, agents or sessions, that start agents or migrate
/// sessions, that write secrets and that post to the network.
pub proof fn lemma_destructive(tool: Seq<char>)
    ensures
        destructive(tool) <==> {
            ||| tool == "fs_delete"@
            ||| tool == "fs_move"@
            ||| tool == "fs_write"@
            ||| tool == "process_kill"@
            ||| tool == "systemd_unit_stop"@
            ||| tool == "systemd_unit_restart"@
            ||| tool == "agent_spawn"@
            ||| tool == "agent_kill"@
            ||| tool == "network_outbound_post"@
            ||| tool == "secrets_write"@
            ||| tool == "session_migrate"@
            ||| tool == "session_close"@
        },
        must_ask(ControlMode::AssistedMode, tool) <==> destructive(tool),
        must_ask(ControlMode::HumanMode, tool),
        !must_ask(ControlMode::AgentMode, tool),
        !must_ask(ControlMode::BypassPermissions, tool),
{
    let all = destructive_tools();
    assert(all[0]@ == "fs_delete"@ && all[1]@ == "fs_move"@ && all[2]@ == "fs_write"@ && all[3]@
        == "process_kill"@ && all[4]@ == "systemd_unit_stop"@ && all[5]@
        == "systemd_unit_restart"@ && all[6]@ == "agent_spawn"@ && all[7]@ == "agent_kill"@
        && all[8]@ == "network_outbound_post"@ && all[9]@ == "secrets_write"@ && all[10]@
        == "session_migrate"@ && all[11]@ == "session_close"@);
}

proof fn lemma_missing_first(
    granted: Set<CapabilityView>,
    needed: Seq<CapabilityView>,
    at: int,
)
    requires
        0 <= at < needed.len(),
        !granted.contains(needed[at]),
        forall|i: int| 0 <= i < at ==> granted.contains(#[trigger] needed[i]),
    ensures
        first_missing(granted, needed) == Some(needed[at]),
    decreases needed.len(),
{
    if at > 0 {
        assert(granted.contains(needed[0]));
        let rest = needed.drop_first();
        assert forall|i: int| 0 <= i < at - 1 implies granted.contains(#[trigger] rest[i]) by {
            assert(granted.contains(needed[i + 1]));
        }
        lemma_missing_first(granted, rest, at - 1);
    }
}

/// A call is denied for the first right that it lacks, which is told and recorded.
pub proof fn lemma_denied(
    g: GateView,
    call: ToolCallView,
    mode: ControlMode,
    needed: Seq<CapabilityView>,
    ticket: Seq<char>,
    now_ms: u64,
    at: int,
)
    requires
        0 <= at < needed.len(),
        !g.capabilities.contains(needed[at]),
        forall|i: int| 0 <= i < at ==> g.capabilities.contains(#[trigger] needed[i]),
    ensures
        check_view(g, call, mode, needed, ticket, now_ms) == (
            GateView {
                audit: g.audit.push(
                    GateEventView {
                        tool_name: call.name,
                        action: AuditAction::Denied,
                        timestamp_ms: now_ms,
                    },
                ),
                ..g
            },
            GateStepView::Decided(
                DecisionView::Skip("capability denied: "@ + needed[at].printed()),
            ),
        ),
{
    lemma_missing_first(g.capabilities, needed, at);
}

/// A call with all its rights runs and is recorded as allowed, or as bypassed where
/// permissions are bypassed. Where the user is asked, nothing is recorded yet, the question
/// waits under a name of its own, and shows the tool, its input and the two choices. In human
/// mode it waits for five minutes, else for one.
pub proof fn lemma_granted(
    g: GateView,
    call: ToolCallView,
    mode: ControlMode,
    needed: Seq<CapabilityView>,
    ticket: Seq<char>,
    now_ms: u64,
)
    requires
        forall|i: int| 0 <= i < needed.len() ==> g.capabilities.contains(#[trigger] needed[i]),
    ensures
        ({
            let (after, step) = check_view(g, call, mode, needed, ticket, now_ms);
            let id = "gate-"@ + call.name + "-"@ + ticket;
            if must_ask(mode, call.name) {
                &&& after == (GateView { pending: g.pending.insert(id), ..g })
                &&& step matches GateStepView::Ask(q) && {
                    &&& q.request_id == id
                    &&& q.timeout_secs == if mode == ControlMode::HumanMode { 300u64 } else { 60 }
                    &&& q.signals.len() == 2
                    &&& q.signals[0] == (SignalView::ApprovalRequired {
                        request_id: id,
                        tool_name: call.name,
                        description: "Allow `"@ + call.name + "` to run?"@,
                        input_preview: call.input,
                    })
                    &&& q.signals[1] matches SignalView::Interrupt {
                        interrupt_id,
                        kind,
                        message,
                        choices,
                    } && interrupt_id == id && kind == InterruptKind::Confirmation && message
                        == "Waiting for approval: "@ + call.name && choices.len() == 2
                        && choices[0].id == "approve"@ && choices[0].label == "Approve"@
                        && choices[0].style == ChoiceStyle::Primary && choices[1].id == "reject"@
                        && choices[1].label == "Reject"@ && choices[1].style
                        == ChoiceStyle::Destructive
                }
            } else {
                &&& step == GateStepView::Decided(DecisionView::Proceed)
                &&& after == (GateView {
                    audit: g.audit.push(
                        GateEventView {
                            tool_name: call.name,
                            action: if mode == ControlMode::BypassPermissions {
                                AuditAction::Bypassed
                            } else {
                                AuditAction::Allowed
                            },
                            timestamp_ms: now_ms,
                        },
                    ),
                    ..g
                })
            }
        }),
{
    lemma_first_missing(g.capabilities, needed);
}

/// An approved call runs, a rejected one does not, and each is recorded as such. A new
/// direction is handed on. Silence is recorded and is an error.
pub proof fn lemma_answer_decides(g: GateView, tool: Seq<char>, answer: ApprovalAnswer, now_ms: u64)
    ensures
        ({
            let (after, decision) = conclude_view(g, tool, answer, now_ms);
            let entry = |action: AuditAction|
                GateView {
                    audit: g.audit.push(
                        GateEventView { tool_name: tool, action, timestamp_ms: now_ms },
                    ),
                    ..g
                };
            match answer {
                ApprovalAnswer::Answered(ApprovalDecision::Approved) => decision == Ok::<
                    DecisionView,
                    ErrorView,
                >(DecisionView::Proceed) && after == entry(AuditAction::Approved),
                ApprovalAnswer::Answered(ApprovalDecision::Rejected) => decision == Ok::<
                    DecisionView,
                    ErrorView,
                >(DecisionView::Skip("Rejected by user"@)) && after == entry(
                    AuditAction::Rejected,
                ),
                ApprovalAnswer::Answered(ApprovalDecision::Redirected { new_intent }) => decision
                    == Ok::<DecisionView, ErrorView>(DecisionView::Redirect(new_intent@)) && after
                    == g,
                ApprovalAnswer::Silent => decision is Err && after == entry(
                    AuditAction::TimedOut,
                ),
            }
        }),
{
}

/// An answer is passed on to the question that waits for it, once, and to no other.
pub proof fn lemma_answered_once(
    gate: &mut CapabilityGate,
    again: &mut CapabilityGate,
    id: &str,
    decision: ApprovalDecision,
    first: Option<ApprovalDecision>,
    second: Option<ApprovalDecision>,
    other: Seq<char>,
)
    requires
        call_ensures(CapabilityGate::resolve_approval, (gate, id, decision), first),
        *again == *final(gate),
        call_ensures(CapabilityGate::resolve_approval, (again, id, decision), second),
        other != id@,
    ensures
        first == (if old(gate)@.pending.contains(id@) {
            Some(decision)
        } else {
            None
        }),
        second is None,
        final(gate)@.pending.contains(other) == old(gate)@.pending.contains(other),
        final(gate)@.audit == old(gate)@.audit,
{
}

} // verus!
