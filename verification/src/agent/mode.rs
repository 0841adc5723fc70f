//! How much the human is asked.

use vstd::prelude::*;

verus! {

/// Governs how the capability gate and the interrupts behave.
#[derive(Debug, Clone, Copy, PartialEq, Eq, Structural)]
pub enum ControlMode {
    /// Fully autonomous: every tool call passes at once and is audited.
    BypassPermissions,
    /// The default: every granted tool call passes.
    AgentMode,
    /// Destructive tools wait for the user's approval.
    AssistedMode,
    /// Every tool call waits for the user's approval.
    HumanMode,
}

impl Default for ControlMode {
    fn default() -> (mode: Self)
        ensures
            mode == ControlMode::AgentMode,
    {
        ControlMode::AgentMode
    }
}

impl ControlMode {
    /// Whether permissions are bypassed.
    pub fn is_bypass(self) -> (r: bool)
        ensures
            r == (self == ControlMode::BypassPermissions),
    {
        matches!(self, ControlMode::BypassPermissions)
    }

    /// Whether no tool call waits for the user.
    pub fn is_autonomous(self) -> (r: bool)
        ensures
            r == (self == ControlMode::BypassPermissions || self == ControlMode::AgentMode),
    {
        matches!(self, ControlMode::BypassPermissions | ControlMode::AgentMode)
    }

    /// Whether every tool call waits for the user.
    pub fn requires_approval_for_all(self) -> (r: bool)
        ensures
            r == (self == ControlMode::HumanMode),
    {
        matches!(self, ControlMode::HumanMode)
    }

    /// The mode's name on the wire.
    pub open spec fn wire(self) -> Seq<char> {
        match self {
            ControlMode::BypassPermissions => "bypass_permissions"@,
            ControlMode::AgentMode => "agent_mode"@,
            ControlMode::AssistedMode => "assisted_mode"@,
            ControlMode::HumanMode => "human_mode"@,
        }
    }

    /// The mode's name on the wire.
    pub fn wire_name(self) -> (name: String)
        ensures
            name@ == self.wire(),
    {
        match self {
            ControlMode::BypassPermissions => "bypass_permissions".to_string(),
            ControlMode::AgentMode => "agent_mode".to_string(),
            ControlMode::AssistedMode => "assisted_mode".to_string(),
            ControlMode::HumanMode => "human_mode".to_string(),
        }
    }

    /// The mode's name for people.
    pub open spec fn title(self) -> Seq<char> {
        match self {
            ControlMode::BypassPermissions => "BypassPermissions"@,
            ControlMode::AgentMode => "AgentMode"@,
            ControlMode::AssistedMode => "AssistedMode"@,
            ControlMode::HumanMode => "HumanMode"@,
        }
    }

    /// The mode's name for people.
    pub fn title_text(self) -> (name: String)
        ensures
            name@ == self.title(),
    {
        match self {
            ControlMode::BypassPermissions => "BypassPermissions".to_string(),
            ControlMode::AgentMode => "AgentMode".to_string(),
            ControlMode::AssistedMode => "AssistedMode".to_string(),
            ControlMode::HumanMode => "HumanMode".to_string(),
        }
    }
}

/// Each mode has its own name on the wire.
pub proof fn lemma_wire_names_differ(a: ControlMode, b: ControlMode)
    requires
        a.wire() == b.wire(),
    ensures
        a == b,
{
    reveal_strlit("bypass_permissions");
    reveal_strlit("agent_mode");
    reveal_strlit("assisted_mode");
    reveal_strlit("human_mode");
    assert("bypass_permissions"@.len() == 18);
    assert("assisted_mode"@.len() == 13);
    assert("agent_mode"@.len() == 10 && "agent_mode"@[0] == 'a');
    assert("human_mode"@.len() == 10 && "human_mode"@[0] == 'h');
}

/// Of the four modes one bypasses permissions, that one and the default act alone, and one asks
/// for every call.
pub proof fn lemma_modes(mode: ControlMode, bypass: bool, alone: bool, asks: bool, usual: ControlMode)
    requires
        call_ensures(ControlMode::is_bypass, (mode,), bypass),
        call_ensures(ControlMode::is_autonomous, (mode,), alone),
        call_ensures(ControlMode::requires_approval_for_all, (mode,), asks),
        call_ensures(<ControlMode as Default>::default, (), usual),
    ensures
        usual == ControlMode::AgentMode,
        match mode {
            ControlMode::BypassPermissions => bypass && alone && !asks,
            ControlMode::AgentMode => !bypass && alone && !asks,
            ControlMode::AssistedMode => !bypass && !alone && !asks,
            ControlMode::HumanMode => !bypass && !alone && asks,
        },
        mode.wire() == (match mode {
            ControlMode::BypassPermissions => "bypass_permissions"@,
            ControlMode::AgentMode => "agent_mode"@,
            ControlMode::AssistedMode => "assisted_mode"@,
            ControlMode::HumanMode => "human_mode"@,
        }),
{
}

} // verus!
