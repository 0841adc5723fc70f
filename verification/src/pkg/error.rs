//! What can go wrong with an artifact.

use vstd::prelude::*;

verus! {

/// Why an artifact could not be managed.
pub enum PkgError {
    NotFound(String),
    Registry(String),
    Verify(String),
    Manifest(String),
    Grant(String),
    Checkout(String),
    BadId(String),
    NotInstalled(String),
    Io(String),
}

/// What such an error is.
#[verifier::ext_equal]
pub enum PkgErrorView {
    NotFound(Seq<char>),
    Registry(Seq<char>),
    Verify(Seq<char>),
    Manifest(Seq<char>),
    Grant(Seq<char>),
    Checkout(Seq<char>),
    BadId(Seq<char>),
    NotInstalled(Seq<char>),
    Io(Seq<char>),
}

impl View for PkgError {
    type V = PkgErrorView;

    open spec fn view(&self) -> PkgErrorView {
        match self {
            PkgError::NotFound(e) => PkgErrorView::NotFound(e@),
            PkgError::Registry(e) => PkgErrorView::Registry(e@),
            PkgError::Verify(e) => PkgErrorView::Verify(e@),
            PkgError::Manifest(e) => PkgErrorView::Manifest(e@),
            PkgError::Grant(e) => PkgErrorView::Grant(e@),
            PkgError::Checkout(e) => PkgErrorView::Checkout(e@),
            PkgError::BadId(e) => PkgErrorView::BadId(e@),
            PkgError::NotInstalled(e) => PkgErrorView::NotInstalled(e@),
            PkgError::Io(e) => PkgErrorView::Io(e@),
        }
    }
}

impl PkgErrorView {
    /// The error in words.
    pub open spec fn message(self) -> Seq<char> {
        match self {
            PkgErrorView::NotFound(e) => "artifact not found in registry: "@ + e,
            PkgErrorView::Registry(e) => "registry error: "@ + e,
            PkgErrorView::Verify(e) => "integrity/signature verification failed: "@ + e,
            PkgErrorView::Manifest(e) => "manifest invalid: "@ + e,
            PkgErrorView::Grant(e) => "capability grant denied: "@ + e,
            PkgErrorView::Checkout(e) => "checkout failed: "@ + e,
            PkgErrorView::BadId(e) => "invalid artifact id: "@ + e,
            PkgErrorView::NotInstalled(e) => "artifact not installed: "@ + e,
            PkgErrorView::Io(e) => "i/o: "@ + e,
        }
    }
}

impl PkgError {
    /// The error in words.
    pub fn message(&self) -> (words: String)
        ensures
            words@ == self@.message(),
    {
        let (head, rest) = match self {
            PkgError::NotFound(e) => ("artifact not found in registry: ", e),
            PkgError::Registry(e) => ("registry error: ", e),
            PkgError::Verify(e) => ("integrity/signature verification failed: ", e),
            PkgError::Manifest(e) => ("manifest invalid: ", e),
            PkgError::Grant(e) => ("capability grant denied: ", e),
            PkgError::Checkout(e) => ("checkout failed: ", e),
            PkgError::BadId(e) => ("invalid artifact id: ", e),
            PkgError::NotInstalled(e) => ("artifact not installed: ", e),
            PkgError::Io(e) => ("i/o: ", e),
        };
        head.to_string().concat(rest.as_str())
    }

    /// The error for what the registry said.
    pub fn from_registry(fault: RegistryFault) -> (error: PkgError)
        ensures
            error@ == fault_error(fault@),
    {
        match fault {
            RegistryFault::NotFound(id) => PkgError::NotFound(id),
            RegistryFault::HashMismatch(e) => PkgError::Verify(e),
            RegistryFault::BadSignature(e) => PkgError::Verify(e),
            RegistryFault::UntrustedKey(e) => PkgError::Verify(e),
            RegistryFault::Other(e) => PkgError::Registry(e),
        }
    }
}

/// Why the registry gave nothing: an artifact that it does not have, by its id, or the
/// words of another fault.
pub enum RegistryFault {
    NotFound(String),
    HashMismatch(String),
    BadSignature(String),
    UntrustedKey(String),
    Other(String),
}

/// What such a fault is.
#[verifier::ext_equal]
pub enum FaultView {
    NotFound(Seq<char>),
    HashMismatch(Seq<char>),
    BadSignature(Seq<char>),
    UntrustedKey(Seq<char>),
    Other(Seq<char>),
}

impl View for RegistryFault {
    type V = FaultView;

    open spec fn view(&self) -> FaultView {
        match self {
            RegistryFault::NotFound(e) => FaultView::NotFound(e@),
            RegistryFault::HashMismatch(e) => FaultView::HashMismatch(e@),
            RegistryFault::BadSignature(e) => FaultView::BadSignature(e@),
            RegistryFault::UntrustedKey(e) => FaultView::UntrustedKey(e@),
            RegistryFault::Other(e) => FaultView::Other(e@),
        }
    }
}

/// The error for what the registry said: whatever casts doubt on the artifact is a failed
/// verification.
pub open spec fn fault_error(fault: FaultView) -> PkgErrorView {
    match fault {
        FaultView::NotFound(id) => PkgErrorView::NotFound(id),
        FaultView::HashMismatch(e) => PkgErrorView::Verify(e),
        FaultView::BadSignature(e) => PkgErrorView::Verify(e),
        FaultView::UntrustedKey(e) => PkgErrorView::Verify(e),
        FaultView::Other(e) => PkgErrorView::Registry(e),
    }
}

} // verus!
