//! What the agent tells the human between turns.

use vstd::prelude::*;
use crate::json::Json;
use crate::json::JsonView;

verus! {

/// What an interrupt asks for.
#[derive(Debug, Clone, Copy, PartialEq, Eq, Structural)]
pub enum InterruptKind {
    /// The agent cannot resolve an ambiguity by itself.
    DecisionRequired,
    /// The agent is about to do something that cannot be undone.
    Confirmation,
    /// The human should know of an anomaly. Never blocks, and shows in all modes.
    Attention,
    /// Progress.
    Info,
}

impl InterruptKind {
    /// Whether the agent can settle the interrupt without the human when
    /// permissions are bypassed: the blocking kinds.
    pub fn can_be_autonomous(&self) -> (r: bool)
        ensures
            r == (*self == InterruptKind::DecisionRequired || *self
                == InterruptKind::Confirmation),
    {
        matches!(self, InterruptKind::DecisionRequired | InterruptKind::Confirmation)
    }

    /// Whether the interrupt shows on screen: an anomaly always does, what asks the
    /// human does unless permissions are bypassed, and progress never does.
    pub fn is_visual(&self, bypass: bool) -> (r: bool)
        ensures
            r == (*self == InterruptKind::Attention || (!bypass && *self
                != InterruptKind::Info)),
    {
        match self {
            InterruptKind::Attention => true,
            InterruptKind::DecisionRequired | InterruptKind::Confirmation => !bypass,
            InterruptKind::Info => false,
        }
    }
}

/// What the human answered to a blocking interrupt.
pub enum InterruptResolution {
    Approved,
    Rejected,
    Redirected { new_intent: String },
    TimedOut,
}

/// An interrupt from the agent to the human.
pub struct Interrupt {
    pub id: String,
    pub kind: InterruptKind,
    pub message: String,
    pub context: Json,
}

/// What an interrupt is.
#[verifier::ext_equal]
pub struct InterruptView {
    pub id: Seq<char>,
    pub kind: InterruptKind,
    pub message: Seq<char>,
    pub context: JsonView,
}

impl View for Interrupt {
    type V = InterruptView;

    open spec fn view(&self) -> InterruptView {
        InterruptView {
            id: self.id@,
            kind: self.kind,
            message: self.message@,
            context: self.context@,
        }
    }
}

/// What a list of interrupts holds.
pub open spec fn interrupts_view(list: Seq<Interrupt>) -> Seq<InterruptView> {
    Seq::new(list.len(), |i: int| list[i]@)
}

/// The interrupt without context.
pub open spec fn plain(id: Seq<char>, kind: InterruptKind, message: Seq<char>) -> InterruptView {
    InterruptView { id, kind, message, context: JsonView::Null }
}

impl Interrupt {
    /// Asks for a decision.
    pub fn decision(id: String, message: String) -> (interrupt: Self)
        ensures
            interrupt@ == plain(id@, InterruptKind::DecisionRequired, message@),
    {
        Interrupt { id, kind: InterruptKind::DecisionRequired, message, context: Json::Null }
    }

    /// Asks for a confirmation.
    pub fn confirmation(id: String, message: String) -> (interrupt: Self)
        ensures
            interrupt@ == plain(id@, InterruptKind::Confirmation, message@),
    {
        Interrupt { id, kind: InterruptKind::Confirmation, message, context: Json::Null }
    }

    /// Reports progress, without an id.
    pub fn info(message: String) -> (interrupt: Self)
        ensures
            interrupt@ == plain(Seq::empty(), InterruptKind::Info, message@),
    {
        Interrupt { id: String::new(), kind: InterruptKind::Info, message, context: Json::Null }
    }

    /// The interrupt with a context.
    pub fn with_context(self, context: Json) -> (interrupt: Self)
        ensures
            interrupt@ == (InterruptView { context: context@, ..self@ }),
    {
        Interrupt { context, ..self }
    }

    /// A copy of the interrupt.
    pub fn copy(&self) -> (interrupt: Self)
        ensures
            interrupt@ == self@,
    {
        Interrupt {
            id: self.id.clone(),
            kind: self.kind,
            message: self.message.clone(),
            context: self.context.copy(),
        }
    }
}

/// Copies a list of interrupts.
pub fn copy_interrupts(list: &Vec<Interrupt>) -> (copy: Vec<Interrupt>)
    ensures
        interrupts_view(copy@) == interrupts_view(list@),
{
    let mut copy: Vec<Interrupt> = Vec::new();
    let mut i: usize = 0;
    while i < list.len()
        invariant
            i <= list.len(),
            copy.len() == i,
            forall|k: int| 0 <= k < i ==> (#[trigger] copy@[k])@ == list@[k]@,
        decreases list.len() - i,
    {
        copy.push(list[i].copy());
        i += 1;
    }
    assert(interrupts_view(copy@) =~= interrupts_view(list@));
    copy
}

/// What asks for a decision or a confirmation can be settled without the human, and the rest
/// cannot. An anomaly shows whatever the mode, a question unless permissions are bypassed, and
/// progress never.
pub proof fn lemma_kinds(kind: InterruptKind, bypass: bool, alone: bool, visual: bool)
    requires
        call_ensures(InterruptKind::can_be_autonomous, (&kind,), alone),
        call_ensures(InterruptKind::is_visual, (&kind, bypass), visual),
    ensures
        match kind {
            InterruptKind::DecisionRequired | InterruptKind::Confirmation => alone && visual
                == !bypass,
            InterruptKind::Attention => !alone && visual,
            InterruptKind::Info => !alone && !visual,
        },
{
}

/// An interrupt is of the kind that it was made as, with its id, its words and its context.
pub proof fn lemma_made(
    id: String,
    words: String,
    context: Json,
    decision: Interrupt,
    confirmation: Interrupt,
    info: Interrupt,
    with: Interrupt,
)
    requires
        call_ensures(Interrupt::decision, (id, words), decision),
        call_ensures(Interrupt::confirmation, (id, words), confirmation),
        call_ensures(Interrupt::info, (words,), info),
        call_ensures(Interrupt::with_context, (decision, context), with),
    ensures
        decision@.kind == InterruptKind::DecisionRequired,
        decision@.id == id@ && decision@.message == words@ && decision@.context is Null,
        confirmation@.kind == InterruptKind::Confirmation,
        confirmation@.id == id@ && confirmation@.message == words@,
        info@.kind == InterruptKind::Info && info@.message == words@ && info@.id.len() == 0,
        with@.context == context@ && with@.id == id@ && with@.message == words@ && with@.kind
            == InterruptKind::DecisionRequired,
{
}

} // verus!
