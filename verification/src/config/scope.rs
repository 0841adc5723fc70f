//! The tiers of settings, and values with revisions.

use vstd::prelude::*;
use crate::json::Json;

verus! {

/// The revision of a value: it grows with every write.
#[derive(Debug, Clone, Copy, PartialEq, Eq, PartialOrd, Ord, Hash, Structural)]
pub struct Revision(pub u64);

impl Revision {
    /// The revision of a value that was never written.
    pub fn zero() -> (r: Revision)
        ensures
            r.0 == 0,
    {
        Revision(0)
    }

    /// The revision after this one; the last one stays.
    pub fn next(self) -> (r: Revision)
        ensures
            r == next_revision(self),
            self.0 < u64::MAX ==> r.0 == self.0 + 1,
            r.0 >= self.0,
    {
        if self.0 == u64::MAX {
            self
        } else {
            Revision(self.0 + 1)
        }
    }
}

/// The revision after this one; the last one stays.
pub open spec fn next_revision(r: Revision) -> Revision {
    if r.0 == u64::MAX {
        r
    } else {
        Revision((r.0 + 1) as u64)
    }
}

/// The tiers.
#[derive(Debug, Clone, Copy, PartialEq, Eq, Hash, Structural)]
pub enum Scope {
    /// Sealed on the device: the server never sees the plain value.
    Secrets,
    /// Plain to the server.
    Preferences,
    /// Plain to the server, and every change is recorded.
    Capabilities,
}

impl Scope {
    /// The tier in an address.
    pub open spec fn path(self) -> Seq<char> {
        match self {
            Scope::Secrets => "secrets"@,
            Scope::Preferences => "preferences"@,
            Scope::Capabilities => "capabilities"@,
        }
    }

    /// The tier in an address.
    pub fn as_path(self) -> (path: &'static str)
        ensures
            path@ == self.path(),
    {
        match self {
            Scope::Secrets => "secrets",
            Scope::Preferences => "preferences",
            Scope::Capabilities => "capabilities",
        }
    }
}

/// No tier has a bar in its name, and two tiers have different names, so that secrets
/// can be bound to tiers.
pub proof fn lemma_paths(a: Scope, b: Scope)
    ensures
        !a.path().contains('|'),
        a.path() == b.path() ==> a == b,
{
    reveal_strlit("secrets");
    reveal_strlit("preferences");
    reveal_strlit("capabilities");
    assert("secrets"@.len() == 7 && "preferences"@.len() == 11 && "capabilities"@.len() == 12);
    assert forall|i: int| 0 <= i < a.path().len() implies a.path()[i] != '|' by {}
}

/// A value with its revision.
pub struct ScopedValue {
    pub key: String,
    pub revision: Revision,
    /// A sealed secret for the tier of secrets, else the plain value.
    pub payload: Json,
}

} // verus!
