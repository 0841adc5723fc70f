//! What the agent tells the compositor.

use vstd::prelude::*;
use crate::agent::interrupt::InterruptKind;
use crate::json::Json;
use crate::json::JsonView;

verus! {

/// The screen layout that the agent wants for a session.
#[derive(Debug, Clone, Copy, PartialEq, Eq, Structural)]
pub enum SessionLayout {
    /// The agent has the whole screen.
    Fullscreen,
    /// A sidebar for the agent, its width in percent, and one application.
    SplitTwo { ratio_agent: u8 },
    /// One application has the screen and the agent a narrow panel.
    FocusContext,
    /// Four surfaces.
    GridFour,
    /// The agent is not to be seen.
    Ambient,
}

impl Default for SessionLayout {
    fn default() -> (layout: Self)
        ensures
            layout == (SessionLayout::SplitTwo { ratio_agent: 30 }),
    {
        SessionLayout::SplitTwo { ratio_agent: 30 }
    }
}

/// How much of the screen a surface takes.
#[derive(Debug, Clone, Copy, PartialEq, Eq, Structural)]
pub enum SurfaceKind {
    Ambient,
    Glanceable,
    Card,
    Panel,
    Fullscreen,
}

/// How a choice is drawn.
#[derive(Debug, Clone, Copy, PartialEq, Eq, Structural)]
pub enum ChoiceStyle {
    Primary,
    Destructive,
    Subtle,
}

/// How urgent a status line is.
#[derive(Debug, Clone, Copy, PartialEq, Eq, Structural)]
pub enum StatusLevel {
    Info,
    Warning,
    Error,
    Success,
}

/// One choice of an interrupt.
pub struct InterruptChoice {
    pub id: String,
    pub label: String,
    pub style: ChoiceStyle,
}

/// What a choice is.
#[verifier::ext_equal]
pub struct ChoiceView {
    pub id: Seq<char>,
    pub label: Seq<char>,
    pub style: ChoiceStyle,
}

impl View for InterruptChoice {
    type V = ChoiceView;

    open spec fn view(&self) -> ChoiceView {
        ChoiceView { id: self.id@, label: self.label@, style: self.style }
    }
}

/// A signal from the agent to the compositor.
#[allow(inconsistent_fields)]
pub enum SurfaceSignal {
    Thinking { text: String },
    Done { summary: String },
    ToolRunning { tool_name: String },
    ToolDone { tool_name: String, success: bool },
    ApprovalRequired {
        request_id: String,
        tool_name: String,
        description: String,
        input_preview: Json,
    },
    Interrupt {
        interrupt_id: String,
        kind: InterruptKind,
        message: String,
        choices: Vec<InterruptChoice>,
    },
    ShowWidget { widget_id: String, widget_type: String, data: Json, surface_kind: SurfaceKind },
    DismissWidget { widget_id: String },
    RequestLayout { layout: SessionLayout },
    RequestSurface { kind: SurfaceKind, label: String },
    Status { text: String, level: StatusLevel },
}

/// What a signal is.
#[allow(inconsistent_fields)]
#[verifier::ext_equal]
pub enum SignalView {
    Thinking { text: Seq<char> },
    Done { summary: Seq<char> },
    ToolRunning { tool_name: Seq<char> },
    ToolDone { tool_name: Seq<char>, success: bool },
    ApprovalRequired {
        request_id: Seq<char>,
        tool_name: Seq<char>,
        description: Seq<char>,
        input_preview: JsonView,
    },
    Interrupt {
        interrupt_id: Seq<char>,
        kind: InterruptKind,
        message: Seq<char>,
        choices: Seq<ChoiceView>,
    },
    ShowWidget {
        widget_id: Seq<char>,
        widget_type: Seq<char>,
        data: JsonView,
        surface_kind: SurfaceKind,
    },
    DismissWidget { widget_id: Seq<char> },
    RequestLayout { layout: SessionLayout },
    RequestSurface { kind: SurfaceKind, label: Seq<char> },
    Status { text: Seq<char>, level: StatusLevel },
}

impl View for SurfaceSignal {
    type V = SignalView;

    open spec fn view(&self) -> SignalView {
        match self {
            SurfaceSignal::Thinking { text } => SignalView::Thinking { text: text@ },
            SurfaceSignal::Done { summary } => SignalView::Done { summary: summary@ },
            SurfaceSignal::ToolRunning { tool_name } => SignalView::ToolRunning {
                tool_name: tool_name@,
            },
            SurfaceSignal::ToolDone { tool_name, success } => SignalView::ToolDone {
                tool_name: tool_name@,
                success: *success,
            },
            SurfaceSignal::ApprovalRequired { request_id, tool_name, description, input_preview } =>
                SignalView::ApprovalRequired {
                    request_id: request_id@,
                    tool_name: tool_name@,
                    description: description@,
                    input_preview: input_preview@,
                },
            SurfaceSignal::Interrupt { interrupt_id, kind, message, choices } =>
                SignalView::Interrupt {
                    interrupt_id: interrupt_id@,
                    kind: *kind,
                    message: message@,
                    choices: Seq::new(choices@.len(), |i: int| choices@[i]@),
                },
            SurfaceSignal::ShowWidget { widget_id, widget_type, data, surface_kind } =>
                SignalView::ShowWidget {
                    widget_id: widget_id@,
                    widget_type: widget_type@,
                    data: data@,
                    surface_kind: *surface_kind,
                },
            SurfaceSignal::DismissWidget { widget_id } => SignalView::DismissWidget {
                widget_id: widget_id@,
            },
            SurfaceSignal::RequestLayout { layout } => SignalView::RequestLayout {
                layout: *layout,
            },
            SurfaceSignal::RequestSurface { kind, label } => SignalView::RequestSurface {
                kind: *kind,
                label: label@,
            },
            SurfaceSignal::Status { text, level } => SignalView::Status {
                text: text@,
                level: *level,
            },
        }
    }
}

} // verus!
