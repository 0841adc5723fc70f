//! Providers, handles of stored credentials, and what can go wrong.

use vstd::prelude::*;
use crate::text;

verus! {

/// Who issues credentials.
#[derive(Debug, Clone, Copy, PartialEq, Eq, Hash, Structural)]
pub enum Provider {
    Google,
    Microsoft,
    GenericPkce,
    /// A password for one application, kept as it is.
    AppPassword,
}

impl Provider {
    /// The name in a handle.
    pub open spec fn name(self) -> Seq<char> {
        match self {
            Provider::Google => "google"@,
            Provider::Microsoft => "microsoft"@,
            Provider::GenericPkce => "generic_pkce"@,
            Provider::AppPassword => "app_password"@,
        }
    }

    /// The name as it is printed.
    pub open spec fn printed(self) -> Seq<char> {
        match self {
            Provider::Google => "Google"@,
            Provider::Microsoft => "Microsoft"@,
            Provider::GenericPkce => "GenericPkce"@,
            Provider::AppPassword => "AppPassword"@,
        }
    }

    /// The name in a handle.
    pub fn as_str(&self) -> (name: &'static str)
        ensures
            name@ == self.name(),
    {
        match self {
            Provider::Google => "google",
            Provider::Microsoft => "microsoft",
            Provider::GenericPkce => "generic_pkce",
            Provider::AppPassword => "app_password",
        }
    }

    /// The provider of a name.
    pub fn parse(s: &str) -> (provider: Option<Provider>)
        ensures
            provider == provider_of(s@),
    {
        if text::same_text(s, "google") {
            Some(Provider::Google)
        } else if text::same_text(s, "microsoft") {
            Some(Provider::Microsoft)
        } else if text::same_text(s, "generic_pkce") {
            Some(Provider::GenericPkce)
        } else if text::same_text(s, "app_password") {
            Some(Provider::AppPassword)
        } else {
            None
        }
    }
}

/// The provider of a name.
pub open spec fn provider_of(name: Seq<char>) -> Option<Provider> {
    if name == "google"@ {
        Some(Provider::Google)
    } else if name == "microsoft"@ {
        Some(Provider::Microsoft)
    } else if name == "generic_pkce"@ {
        Some(Provider::GenericPkce)
    } else if name == "app_password"@ {
        Some(Provider::AppPassword)
    } else {
        None
    }
}

/// A provider is found by its name, which has no slash in it.
pub proof fn lemma_provider_of(p: Provider)
    ensures
        provider_of(p.name()) == Some(p),
        !p.name().contains('/'),
{
    reveal_strlit("google");
    reveal_strlit("microsoft");
    reveal_strlit("generic_pkce");
    reveal_strlit("app_password");
    assert("google"@.len() == 6 && "microsoft"@.len() == 9);
    assert("generic_pkce"@[0] == 'g' && "app_password"@[0] == 'a');
    assert("generic_pkce"@.len() == 12 && "app_password"@.len() == 12);
    assert forall|i: int| 0 <= i < p.name().len() implies p.name()[i] != '/' by {}
}

/// Why a credential could not be had.
pub enum OAuthError {
    Provider(Provider),
    Authorize(String),
    AuthorizationPending,
    Refresh(String),
    NotFound(String),
    BadHandle(String),
    Secret(String),
    Http(String),
}

/// What such a failure is.
#[verifier::ext_equal]
pub enum OAuthErrorView {
    Provider(Provider),
    Authorize(Seq<char>),
    AuthorizationPending,
    Refresh(Seq<char>),
    NotFound(Seq<char>),
    BadHandle(Seq<char>),
    Secret(Seq<char>),
    Http(Seq<char>),
}

impl View for OAuthError {
    type V = OAuthErrorView;

    open spec fn view(&self) -> OAuthErrorView {
        match self {
            OAuthError::Provider(p) => OAuthErrorView::Provider(*p),
            OAuthError::Authorize(t) => OAuthErrorView::Authorize(t@),
            OAuthError::AuthorizationPending => OAuthErrorView::AuthorizationPending,
            OAuthError::Refresh(t) => OAuthErrorView::Refresh(t@),
            OAuthError::NotFound(t) => OAuthErrorView::NotFound(t@),
            OAuthError::BadHandle(t) => OAuthErrorView::BadHandle(t@),
            OAuthError::Secret(t) => OAuthErrorView::Secret(t@),
            OAuthError::Http(t) => OAuthErrorView::Http(t@),
        }
    }
}

impl OAuthErrorView {
    /// The failure in words.
    pub open spec fn message(self) -> Seq<char> {
        match self {
            OAuthErrorView::Provider(p) => "provider not configured: "@ + p.printed(),
            OAuthErrorView::Authorize(t) => "authorization failed: "@ + t,
            OAuthErrorView::AuthorizationPending => "authorization pending"@,
            OAuthErrorView::Refresh(t) => "token refresh failed: "@ + t,
            OAuthErrorView::NotFound(t) => "no credential stored for handle: "@ + t,
            OAuthErrorView::BadHandle(t) => "invalid handle: "@ + t,
            OAuthErrorView::Secret(t) => "secret store error: "@ + t,
            OAuthErrorView::Http(t) => "http error: "@ + t,
        }
    }
}

impl OAuthError {
    /// The failure in words.
    pub fn message(&self) -> (words: String)
        ensures
            words@ == self@.message(),
    {
        match self {
            OAuthError::Provider(p) => {
                let name = match p {
                    Provider::Google => "Google",
                    Provider::Microsoft => "Microsoft",
                    Provider::GenericPkce => "GenericPkce",
                    Provider::AppPassword => "AppPassword",
                };
                "provider not configured: ".to_string().concat(name)
            },
            OAuthError::Authorize(t) => "authorization failed: ".to_string().concat(t.as_str()),
            OAuthError::AuthorizationPending => "authorization pending".to_string(),
            OAuthError::Refresh(t) => "token refresh failed: ".to_string().concat(t.as_str()),
            OAuthError::NotFound(t) => "no credential stored for handle: ".to_string().concat(
                t.as_str(),
            ),
            OAuthError::BadHandle(t) => "invalid handle: ".to_string().concat(t.as_str()),
            OAuthError::Secret(t) => "secret store error: ".to_string().concat(t.as_str()),
            OAuthError::Http(t) => "http error: ".to_string().concat(t.as_str()),
        }
    }
}

/// Refers to a stored credential.
pub struct SecretHandle(pub String);

impl View for SecretHandle {
    type V = Seq<char>;

    open spec fn view(&self) -> Seq<char> {
        self.0@
    }
}

/// The handle of an application's account at a provider.
pub open spec fn handle_text(app_id: Seq<char>, p: Provider, account: Seq<char>) -> Seq<char> {
    "secrets://app/"@ + app_id + "/"@ + p.name() + "/"@ + account
}

/// The provider that a handle names: the last part but one behind its beginning.
pub open spec fn handle_provider(handle: Seq<char>) -> Option<Provider> {
    if text::begins(handle, "secrets://app/"@) {
        let parts = text::split_on(handle.skip("secrets://app/"@.len() as int), '/');
        if parts.len() < 3 {
            None
        } else {
            provider_of(parts[parts.len() - 2])
        }
    } else {
        None
    }
}

impl SecretHandle {
    /// The handle of an application's account at a provider.
    pub fn new(app_id: &str, provider: Provider, account: &str) -> (handle: Self)
        ensures
            handle@ == handle_text(app_id@, provider, account@),
    {
        let mut text = "secrets://app/".to_string();
        text.append(app_id);
        text.append("/");
        text.append(provider.as_str());
        text.append("/");
        text.append(account);
        SecretHandle(text)
    }

    /// The provider that the handle names.
    pub fn provider(&self) -> (provider: Result<Provider, OAuthError>)
        ensures
            match provider {
                Ok(p) => handle_provider(self@) == Some(p),
                Err(e) => handle_provider(self@) is None && e@ == OAuthErrorView::BadHandle(self@),
            },
    {
        match text::strip_prefix(self.0.as_str(), "secrets://app/") {
            None => Err(OAuthError::BadHandle(self.0.clone())),
            Some(rest) => {
                let parts = text::split(rest.as_str(), '/');
                let ghost seen = text::split_on(rest@, '/');
                assert(seen == text::views(parts@));
                if parts.len() < 3 {
                    return Err(OAuthError::BadHandle(self.0.clone()));
                }
                assert(seen[parts.len() - 2] == parts@[parts.len() - 2]@);
                match Provider::parse(parts[parts.len() - 2].as_str()) {
                    Some(p) => Ok(p),
                    None => Err(OAuthError::BadHandle(self.0.clone())),
                }
            },
        }
    }

    /// A copy of the handle.
    pub fn copy(&self) -> (handle: Self)
        ensures
            handle@ == self@,
    {
        SecretHandle(self.0.clone())
    }
}

/// A handle names the provider that it was made for, where the account has no slash in
/// it.
pub proof fn lemma_handle_names_its_provider(app_id: Seq<char>, p: Provider, account: Seq<char>)
    requires
        !account.contains('/'),
    ensures
        handle_provider(handle_text(app_id, p, account)) == Some(p),
{
    reveal_strlit("/");
    let start = "secrets://app/"@;
    let handle = handle_text(app_id, p, account);
    let rest = handle.skip(start.len() as int);
    lemma_provider_of(p);
    assert(handle =~= start + (app_id + "/"@ + p.name() + "/"@ + account));
    assert(text::begins(handle, start)) by {
        assert(handle.subrange(0, start.len() as int) =~= start);
    }
    let head = app_id.push('/') + p.name();
    assert(rest =~= head.push('/') + account);
    text::lemma_split_last(head, account, '/');
    text::lemma_split_last(app_id, p.name(), '/');
    text::lemma_split_on_nonempty(app_id, '/');
    let parts = text::split_on(rest, '/');
    assert(parts == text::split_on(app_id, '/').push(p.name()).push(account));
    assert(parts[parts.len() - 2] == p.name());
}

} // verus!
