//! What can go wrong in the runtime.

use vstd::prelude::*;
use crate::agent::capability::Capability;
use crate::agent::capability::CapabilityView;

verus! {

/// Why something failed.
pub enum Error {
    CapabilityDenied(Capability),
    CapabilityDeniedByName(String),
    /// A right was missing, and the mode let the call pass all the same.
    CapabilityBypassed(Capability),
    ToolNotFound(String),
    ToolExecution(String),
    Provider(String),
    State(String),
    Sandbox(String),
    Migration(String),
    Fleet(String),
    Parse(String),
    Transport(String),
    Io(String),
    Json(String),
}

/// What a failure is.
#[allow(inconsistent_fields)]
#[verifier::ext_equal]
pub enum ErrorView {
    CapabilityDenied(CapabilityView),
    CapabilityDeniedByName(Seq<char>),
    CapabilityBypassed(CapabilityView),
    ToolNotFound(Seq<char>),
    ToolExecution(Seq<char>),
    Provider(Seq<char>),
    State(Seq<char>),
    Sandbox(Seq<char>),
    Migration(Seq<char>),
    Fleet(Seq<char>),
    Parse(Seq<char>),
    Transport(Seq<char>),
    Io(Seq<char>),
    Json(Seq<char>),
}

impl View for Error {
    type V = ErrorView;

    open spec fn view(&self) -> ErrorView {
        match self {
            Error::CapabilityDenied(c) => ErrorView::CapabilityDenied(c@),
            Error::CapabilityDeniedByName(t) => ErrorView::CapabilityDeniedByName(t@),
            Error::CapabilityBypassed(c) => ErrorView::CapabilityBypassed(c@),
            Error::ToolNotFound(t) => ErrorView::ToolNotFound(t@),
            Error::ToolExecution(t) => ErrorView::ToolExecution(t@),
            Error::Provider(t) => ErrorView::Provider(t@),
            Error::State(t) => ErrorView::State(t@),
            Error::Sandbox(t) => ErrorView::Sandbox(t@),
            Error::Migration(t) => ErrorView::Migration(t@),
            Error::Fleet(t) => ErrorView::Fleet(t@),
            Error::Parse(t) => ErrorView::Parse(t@),
            Error::Transport(t) => ErrorView::Transport(t@),
            Error::Io(t) => ErrorView::Io(t@),
            Error::Json(t) => ErrorView::Json(t@),
        }
    }
}

impl ErrorView {
    /// The failure in words.
    pub open spec fn message(self) -> Seq<char> {
        match self {
            ErrorView::CapabilityDenied(c) => "capability denied: "@ + c.printed(),
            ErrorView::CapabilityDeniedByName(t) => "capability denied: "@ + t,
            ErrorView::CapabilityBypassed(c) => "capability bypassed (audit): "@ + c.printed(),
            ErrorView::ToolNotFound(t) => "tool not found: "@ + t,
            ErrorView::ToolExecution(t) => "tool execution failed: "@ + t,
            ErrorView::Provider(t) => "provider error: "@ + t,
            ErrorView::State(t) => "state backend error: "@ + t,
            ErrorView::Sandbox(t) => "sandbox error: "@ + t,
            ErrorView::Migration(t) => "migration error: "@ + t,
            ErrorView::Fleet(t) => "fleet error: "@ + t,
            ErrorView::Parse(t) => "parse error: "@ + t,
            ErrorView::Transport(t) => "transport error: "@ + t,
            ErrorView::Io(t) => "i/o error: "@ + t,
            ErrorView::Json(t) => t,
        }
    }
}

fn prefixed(prefix: &str, rest: &str) -> (words: String)
    ensures
        words@ == prefix@ + rest@,
{
    prefix.to_string().concat(rest)
}

impl Error {
    /// The failure in words.
    pub fn message(&self) -> (words: String)
        ensures
            words@ == self@.message(),
    {
        match self {
            Error::CapabilityDenied(c) => prefixed("capability denied: ", c.text().as_str()),
            Error::CapabilityDeniedByName(t) => prefixed("capability denied: ", t.as_str()),
            Error::CapabilityBypassed(c) => prefixed(
                "capability bypassed (audit): ",
                c.text().as_str(),
            ),
            Error::ToolNotFound(t) => prefixed("tool not found: ", t.as_str()),
            Error::ToolExecution(t) => prefixed("tool execution failed: ", t.as_str()),
            Error::Provider(t) => prefixed("provider error: ", t.as_str()),
            Error::State(t) => prefixed("state backend error: ", t.as_str()),
            Error::Sandbox(t) => prefixed("sandbox error: ", t.as_str()),
            Error::Migration(t) => prefixed("migration error: ", t.as_str()),
            Error::Fleet(t) => prefixed("fleet error: ", t.as_str()),
            Error::Parse(t) => prefixed("parse error: ", t.as_str()),
            Error::Transport(t) => prefixed("transport error: ", t.as_str()),
            Error::Io(t) => prefixed("i/o error: ", t.as_str()),
            Error::Json(t) => t.clone(),
        }
    }
}

/// A failure says what failed and then the words for it; a denied right is named, and one that
/// was bypassed is told as such.
pub proof fn lemma_failures_in_words(e: Seq<char>, c: CapabilityView)
    ensures
        ErrorView::CapabilityDenied(c).message() == "capability denied: "@ + c.printed(),
        ErrorView::CapabilityDeniedByName(e).message() == "capability denied: "@ + e,
        ErrorView::CapabilityBypassed(c).message() == "capability bypassed (audit): "@
            + c.printed(),
        ErrorView::ToolNotFound(e).message() == "tool not found: "@ + e,
        ErrorView::ToolExecution(e).message() == "tool execution failed: "@ + e,
        ErrorView::Provider(e).message() == "provider error: "@ + e,
        ErrorView::State(e).message() == "state backend error: "@ + e,
        ErrorView::Sandbox(e).message() == "sandbox error: "@ + e,
        ErrorView::Migration(e).message() == "migration error: "@ + e,
        ErrorView::Fleet(e).message() == "fleet error: "@ + e,
        ErrorView::Parse(e).message() == "parse error: "@ + e,
        ErrorView::Transport(e).message() == "transport error: "@ + e,
        ErrorView::Io(e).message() == "i/o error: "@ + e,
        ErrorView::Json(e).message() == e,
{
}

} // verus!
