//! What credentials promise across calls.

use vstd::prelude::*;
use crate::config::crypto;
use crate::json;
use crate::json::Json;
use crate::json::JsonNumberView;
use crate::json::JsonView;
use crate::net;
use crate::oauth::flow;
use crate::oauth::flow::AccessStep;
use crate::oauth::flow::AccessView;
use crate::oauth::flow::ConfigView;
use crate::oauth::flow::Consent;
use crate::oauth::flow::ConsentStep;
use crate::oauth::flow::ConsentView;
use crate::oauth::flow::DeviceAuth;
use crate::oauth::flow::FormRequest;
use crate::oauth::flow::OAuthFlow;
use crate::oauth::flow::ProviderConfig;
use crate::oauth::flow::TokenResponse;
use crate::oauth::flow::TokenSet;
use crate::oauth::flow::TokenView;
use crate::oauth::handle;
use crate::oauth::handle::OAuthError;
use crate::oauth::handle::OAuthErrorView;
use crate::oauth::handle::Provider;
use crate::oauth::handle::SecretHandle;
use crate::oauth::injector;
use crate::oauth::injector::SecretsCredentialInjector;
use crate::oauth::store::MemorySecretStore;
use crate::oauth::store::SealedFileSecretStore;
use crate::oauth::store::SecretStore;
use crate::sorted_map;
use crate::text;

verus! {

// ---------------------------------------------------------------------------
// Handles
// ---------------------------------------------------------------------------

/// A handle names the application, the provider and the account, in this order.
pub proof fn lemma_handle(app: &str, account: &str, p: Provider, made: SecretHandle)
    requires
        call_ensures(SecretHandle::new, (app, p, account), made),
    ensures
        made@ == "secrets://app/"@ + app@ + "/"@ + (match p {
            Provider::Google => "google"@,
            Provider::Microsoft => "microsoft"@,
            Provider::GenericPkce => "generic_pkce"@,
            Provider::AppPassword => "app_password"@,
        }) + "/"@ + account@,
{
}

// ---------------------------------------------------------------------------
// Stores
// ---------------------------------------------------------------------------

/// In memory a secret that was put is got, other handles keep theirs, and a deleted one is
/// gone.
pub proof fn lemma_secrets_in_memory(
    store: &mut MemorySecretStore,
    key: &str,
    secret: Vec<u8>,
    put: Result<(), OAuthError>,
    got: Result<Option<Vec<u8>>, OAuthError>,
    other: &str,
    earlier: Result<Option<Vec<u8>>, OAuthError>,
    later: Result<Option<Vec<u8>>, OAuthError>,
)
    requires
        call_ensures(
            <MemorySecretStore as SecretStore>::get,
            (&*store, other),
            earlier,
        ),
        call_ensures(<MemorySecretStore as SecretStore>::put, (store, key, &secret), put),
        call_ensures(<MemorySecretStore as SecretStore>::get, (final(store), key), got),
        call_ensures(<MemorySecretStore as SecretStore>::get, (final(store), other), later),
    ensures
        put is Ok,
        got matches Ok(Some(s)) && s@ == secret@,
        other@ != key@ ==> earlier is Ok && later is Ok && crypto::opt_bytes(earlier->Ok_0)
            == crypto::opt_bytes(later->Ok_0),
{
}

/// A deleted secret is gone, and other handles keep theirs.
pub proof fn lemma_deleted_in_memory(
    store: &mut MemorySecretStore,
    key: &str,
    deleted: Result<(), OAuthError>,
    got: Result<Option<Vec<u8>>, OAuthError>,
    other: &str,
    earlier: Result<Option<Vec<u8>>, OAuthError>,
    later: Result<Option<Vec<u8>>, OAuthError>,
)
    requires
        call_ensures(<MemorySecretStore as SecretStore>::get, (&*store, other), earlier),
        call_ensures(<MemorySecretStore as SecretStore>::delete, (store, key), deleted),
        call_ensures(<MemorySecretStore as SecretStore>::get, (final(store), key), got),
        call_ensures(<MemorySecretStore as SecretStore>::get, (final(store), other), later),
    ensures
        deleted is Ok,
        got matches Ok(None),
        other@ != key@ ==> earlier is Ok && later is Ok && crypto::opt_bytes(earlier->Ok_0)
            == crypto::opt_bytes(later->Ok_0),
{
}

/// A secret that is sealed into a file opens from it under the same handle, and each secret
/// that is not too long can be sealed. Every handle has a file of its own.
pub proof fn lemma_secrets_in_files(
    store: SealedFileSecretStore,
    key: &str,
    secret: Vec<u8>,
    file: Result<String, OAuthError>,
    raw: Vec<u8>,
    opened: Result<Vec<u8>, OAuthError>,
    other: &str,
    path: String,
    other_path: String,
)
    requires
        secret@.len() < 274877906880,
        call_ensures(SealedFileSecretStore::seal, (&store, key, &secret), file),
        file matches Ok(t) ==> raw@ == vstd::utf8::encode_utf8(t@),
        call_ensures(SealedFileSecretStore::open, (&store, key, &raw), opened),
        call_ensures(SealedFileSecretStore::path, (&store, key), path),
        call_ensures(SealedFileSecretStore::path, (&store, other), other_path),
    ensures
        file is Ok,
        opened matches Ok(s) && s@ == secret@,
        path@ == other_path@ <==> key@ == other@,
{
    crate::oauth::store::lemma_files_are_apart(store.dir(), key@, other@);
}

// ---------------------------------------------------------------------------
// Tokens
// ---------------------------------------------------------------------------

/// Tokens are written as an object of the access token, the refresh token or null, and when
/// they expire, and are read from such an object or from the list of these. A refresh token
/// may be left out, the others may not.
pub proof fn lemma_tokens_on_file(t: TokenView)
    ensures
        ({
            let refresh = match t.refresh {
                Some(r) => JsonView::Text(r),
                None => JsonView::Null,
            };
            let end = JsonView::Number(JsonNumberView::Natural(t.expires_at_ms));
            let m = Map::<Seq<char>, JsonView>::empty().insert(
                "access"@,
                JsonView::Text(t.access),
            ).insert("expires_at_ms"@, end);
            &&& flow::token_json(t) == JsonView::Object(m.insert("refresh"@, refresh))
            &&& flow::token_of_json(JsonView::Object(m.insert("refresh"@, refresh))) == Some(t)
            &&& flow::token_of_json(
                JsonView::Array(seq![JsonView::Text(t.access), refresh, end]),
            ) == Some(t)
            &&& flow::token_of_json(JsonView::Object(m)) == Some(
                TokenView { refresh: None, ..t },
            )
            &&& flow::token_of_json(JsonView::Object(m.remove("access"@))) is None
            &&& flow::token_of_json(JsonView::Object(m.remove("expires_at_ms"@))) is None
        }),
{
    reveal_strlit("access");
    reveal_strlit("refresh");
    reveal_strlit("expires_at_ms");
    assert("access"@.len() == 6 && "refresh"@.len() == 7 && "expires_at_ms"@.len() == 13);
    reveal_with_fuel(json::placed, 4);
    let refresh = match t.refresh {
        Some(r) => JsonView::Text(r),
        None => JsonView::Null,
    };
    let end = JsonView::Number(JsonNumberView::Natural(t.expires_at_ms));
    let items = seq![JsonView::Text(t.access), refresh, end];
    assert(items.drop_last() =~= seq![JsonView::Text(t.access), refresh]);
    assert(items.drop_last().drop_last() =~= seq![JsonView::Text(t.access)]);
    assert(items.drop_last().drop_last().drop_last() =~= Seq::<JsonView>::empty());
    let m = Map::<Seq<char>, JsonView>::empty().insert("access"@, JsonView::Text(t.access)).insert(
        "expires_at_ms"@,
        end,
    );
    assert(flow::token_json(t)->Object_0 =~= m.insert("refresh"@, refresh));
}

/// A renewal gives the new access token until it expires. The refresh token is the new one
/// where there is a new one, else the old one goes on. An error of the provider is told.
pub proof fn lemma_renewal(
    body: TokenResponse,
    refresh_token: &str,
    now_ms: u64,
    tokens: Result<TokenSet, OAuthError>,
)
    requires
        call_ensures(flow::read_renewal, (body, refresh_token, now_ms), tokens),
    ensures
        body.error matches Some(e) ==> (tokens matches Err(f) && f@ == OAuthErrorView::Refresh(
            e@,
        )),
        body.error is None ==> (tokens matches Ok(t) && {
            &&& t.access@ == body.access_token@
            &&& t.refresh matches Some(r) && r@ == (match body.refresh_token {
                Some(new) => new@,
                None => refresh_token@,
            })
            &&& now_ms + body.expires_in * 1000 <= u64::MAX ==> t.expires_at_ms == now_ms
                + body.expires_in * 1000
            &&& now_ms + body.expires_in * 1000 > u64::MAX ==> t.expires_at_ms == u64::MAX
        }),
{
}

/// A grant gives the tokens of the answer. While the user has not consented yet it is
/// pending, and any other error is told.
pub proof fn lemma_grant(
    body: TokenResponse,
    now_ms: u64,
    tokens: Result<TokenSet, OAuthError>,
)
    requires
        call_ensures(flow::read_grant, (body, now_ms), tokens),
    ensures
        body.error matches Some(e) ==> (e@ == "authorization_pending"@ || e@ == "slow_down"@ ==> (
        tokens matches Err(f) && f@ == OAuthErrorView::AuthorizationPending)),
        body.error matches Some(e) ==> (e@ != "authorization_pending"@ && e@ != "slow_down"@ ==> (
        tokens matches Err(f) && f@ == OAuthErrorView::Authorize(e@))),
        body.error is None ==> (tokens matches Ok(t) && {
            &&& t.access@ == body.access_token@
            &&& text::opt_view(t.refresh) == text::opt_view(body.refresh_token)
            &&& now_ms + body.expires_in * 1000 <= u64::MAX ==> t.expires_at_ms == now_ms
                + body.expires_in * 1000
            &&& now_ms + body.expires_in * 1000 > u64::MAX ==> t.expires_at_ms == u64::MAX
        }),
{
}

/// Tokens that were stored are loaded, and revoked ones are not found any more. Other handles
/// keep theirs.
pub proof fn lemma_stored_then_loaded(
    flow: &mut OAuthFlow<MemorySecretStore>,
    handle: SecretHandle,
    tokens: TokenSet,
    stored: Result<(), OAuthError>,
    got: Result<TokenSet, OAuthError>,
    other: SecretHandle,
    earlier: Result<TokenSet, OAuthError>,
    later: Result<TokenSet, OAuthError>,
)
    requires
        call_ensures(OAuthFlow::<MemorySecretStore>::load_tokens, (&*flow, &other), earlier),
        call_ensures(
            OAuthFlow::<MemorySecretStore>::store_tokens,
            (flow, &handle, &tokens),
            stored,
        ),
        call_ensures(OAuthFlow::<MemorySecretStore>::load_tokens, (final(flow), &handle), got),
        call_ensures(OAuthFlow::<MemorySecretStore>::load_tokens, (final(flow), &other), later),
    ensures
        stored is Ok,
        got matches Ok(t) && t@ == tokens@,
        other@ != handle@ ==> flow::tokens_result(earlier) == flow::tokens_result(later),
{
}

/// Revoked tokens are not found any more, and other handles keep theirs.
pub proof fn lemma_revoked(
    flow: &mut OAuthFlow<MemorySecretStore>,
    handle: SecretHandle,
    revoked: Result<(), OAuthError>,
    got: Result<TokenSet, OAuthError>,
    other: SecretHandle,
    earlier: Result<TokenSet, OAuthError>,
    later: Result<TokenSet, OAuthError>,
)
    requires
        call_ensures(OAuthFlow::<MemorySecretStore>::load_tokens, (&*flow, &other), earlier),
        call_ensures(OAuthFlow::<MemorySecretStore>::revoke, (flow, &handle), revoked),
        call_ensures(OAuthFlow::<MemorySecretStore>::load_tokens, (final(flow), &handle), got),
        call_ensures(OAuthFlow::<MemorySecretStore>::load_tokens, (final(flow), &other), later),
    ensures
        revoked is Ok,
        got matches Err(e) && e@ == OAuthErrorView::NotFound(handle@),
        other@ != handle@ ==> flow::tokens_result(earlier) == flow::tokens_result(later),
{
}

/// A finished renewal hands out the new access token, and that is the one that is loaded from
/// then on. A failed one stores nothing.
pub proof fn lemma_renewed_is_loaded(
    flow: &mut OAuthFlow<MemorySecretStore>,
    handle: SecretHandle,
    body: TokenResponse,
    refresh_token: &str,
    now_ms: u64,
    access: Result<String, OAuthError>,
    got: Result<TokenSet, OAuthError>,
)
    requires
        call_ensures(
            OAuthFlow::<MemorySecretStore>::finish_renewal,
            (flow, &handle, body, refresh_token, now_ms),
            access,
        ),
        call_ensures(OAuthFlow::<MemorySecretStore>::load_tokens, (final(flow), &handle), got),
    ensures
        body.error is None ==> (access matches Ok(a) && a@ == body.access_token@) && (
        got matches Ok(t) && t.access@ == body.access_token@),
        body.error is Some ==> access is Err && final(flow).store == old(flow).store,
{
}

/// An access token is used as long as it lasts for more than another minute. Then it is
/// renewed, with the provider that the handle names and with the refresh token.
pub proof fn lemma_access(
    flow: OAuthFlow<MemorySecretStore>,
    tokens: TokenSet,
    handle: SecretHandle,
    now_ms: u64,
    step: Result<AccessStep, OAuthError>,
)
    requires
        call_ensures(
            OAuthFlow::<MemorySecretStore>::access_step,
            (&flow, &tokens, &handle, now_ms),
            step,
        ),
    ensures
        tokens.expires_at_ms > now_ms + 60_000 ==> (step matches Ok(s) && s@ == AccessView::Token(
            tokens.access@,
        )),
        tokens.expires_at_ms <= now_ms + 60_000 ==> match handle::handle_provider(handle@) {
            None => step matches Err(e) && e@ == OAuthErrorView::BadHandle(handle@),
            Some(p) => if !flow.providers().dom().contains(p.name()) {
                step matches Err(e) && e@ == OAuthErrorView::Provider(p)
            } else {
                match tokens.refresh {
                    None => step matches Err(e) && e@ is Refresh,
                    Some(r) => step matches Ok(AccessStep::Renew { form, refresh_token })
                        && refresh_token@ == r@ && form.url@
                        == flow.providers()[p.name()].token_url && flow::fields_view(
                        form.fields@,
                    ) == flow::refresh_form(flow.providers()[p.name()], r@).fields,
                }
            },
        },
{
}

/// A form goes to its address with each field in order. A renewal carries the refresh token,
/// a device its code, each with the kind of grant and the client, and with the client's secret
/// where there is one. A device asks with the client and the scopes.
pub proof fn lemma_forms(c: ConfigView, token: Seq<char>, url: Seq<char>)
    ensures
        ({
            let secret = match c.client_secret {
                Some(s) => seq![("client_secret"@, s)],
                None => Seq::<(Seq<char>, Seq<char>)>::empty(),
            };
            &&& flow::refresh_form(c, token).url == c.token_url
            &&& flow::refresh_form(c, token).fields == seq![
                ("grant_type"@, "refresh_token"@),
                ("refresh_token"@, token),
                ("client_id"@, c.client_id),
            ] + secret
            &&& flow::token_form(c, token).url == c.token_url
            &&& flow::token_form(c, token).fields == seq![
                ("grant_type"@, "urn:ietf:params:oauth:grant-type:device_code"@),
                ("device_code"@, token),
                ("client_id"@, c.client_id),
            ] + secret
            &&& flow::device_form(c, url).url == url
            &&& flow::device_form(c, url).fields == seq![
                ("client_id"@, c.client_id),
                ("scope"@, text::joined(c.scopes, " "@)),
            ]
        }),
{
    let secret = match c.client_secret {
        Some(s) => seq![("client_secret"@, s)],
        None => Seq::<(Seq<char>, Seq<char>)>::empty(),
    };
    assert(flow::refresh_form(c, token).fields =~= seq![
        ("grant_type"@, "refresh_token"@),
        ("refresh_token"@, token),
        ("client_id"@, c.client_id),
    ] + secret);
    assert(flow::token_form(c, token).fields =~= seq![
        ("grant_type"@, "urn:ietf:params:oauth:grant-type:device_code"@),
        ("device_code"@, token),
        ("client_id"@, c.client_id),
    ] + secret);
}

/// A provider that was added is asked where its own settings say.
pub proof fn lemma_provider_is_asked(
    flow: OAuthFlow<MemorySecretStore>,
    provider: Provider,
    config: ProviderConfig,
    with: OAuthFlow<MemorySecretStore>,
    asked: Result<FormRequest, OAuthError>,
    device_code: &str,
    polled: Result<FormRequest, OAuthError>,
)
    requires
        call_ensures(
            OAuthFlow::<MemorySecretStore>::with_provider,
            (flow, provider, config),
            with,
        ),
        call_ensures(OAuthFlow::<MemorySecretStore>::device_request, (&with, provider), asked),
        call_ensures(
            OAuthFlow::<MemorySecretStore>::token_request,
            (&with, provider, device_code),
            polled,
        ),
    ensures
        match config.device_authorization_url {
            Some(url) => asked matches Ok(f) && f@ == flow::device_form(config@, url@),
            None => asked matches Err(e) && e@ is Authorize,
        },
        polled matches Ok(f) && f@ == flow::token_form(config@, device_code@),
        with.store == flow.store,
{
}

// ---------------------------------------------------------------------------
// Consent
// ---------------------------------------------------------------------------

/// Consent is waited for until the code expires, ten minutes where it does not say when, with
/// the pause that the provider asks for, a second at least. Tokens end the waiting, and so
/// does every error but that it is pending.
pub proof fn lemma_consent(
    device: DeviceAuth,
    now_ms: u64,
    consent: Consent,
    later_ms: u64,
    paused: ConsentStep,
    result: Result<TokenSet, OAuthError>,
    answered: ConsentStep,
)
    requires
        now_ms <= 0x00ff_ffff_ffff_ffff,
        device.expires_in <= 0xffff_ffff,
        call_ensures(Consent::begin, (&device, now_ms), consent),
        call_ensures(Consent::pause, (&consent, later_ms), paused),
        call_ensures(Consent::answer, (&consent, result, later_ms), answered),
    ensures
        ({
            let secs = if device.expires_in > 0 { device.expires_in as int } else { 600int };
            let pause = if device.interval > 0 { device.interval } else { 1u64 };
            let over = later_ms > now_ms + secs * 1000;
            &&& !over ==> paused@ == (ConsentView::Wait { seconds: pause })
            &&& over ==> paused@ is Failed
            &&& result matches Ok(t) ==> answered@ == (ConsentView::Done { tokens: t@ })
            &&& result matches Err(e) ==> (e@ is AuthorizationPending ==> answered@ == paused@)
            &&& result matches Err(e) ==> (!(e@ is AuthorizationPending) ==> answered@ == (
            ConsentView::Failed { error: e@ }))
        }),
{
}

// ---------------------------------------------------------------------------
// Credentials of requests
// ---------------------------------------------------------------------------

/// A request of an application to a host gets the credential that was mapped to both, and no
/// other request does.
pub proof fn lemma_credential(
    injector: &mut SecretsCredentialInjector,
    app: &str,
    host: &str,
    handle: SecretHandle,
    found: Option<SecretHandle>,
    other_app: &str,
    other_host: &str,
    earlier: Option<SecretHandle>,
    later: Option<SecretHandle>,
)
    requires
        call_ensures(
            SecretsCredentialInjector::handle_for,
            (&*injector, other_app, other_host),
            earlier,
        ),
        call_ensures(SecretsCredentialInjector::map, (injector, app, host, handle), ()),
        call_ensures(SecretsCredentialInjector::handle_for, (final(injector), app, host), found),
        call_ensures(
            SecretsCredentialInjector::handle_for,
            (final(injector), other_app, other_host),
            later,
        ),
    ensures
        found matches Some(h) && h@ == handle@,
        other_app@ != app@ || other_host@ != host@ ==> (earlier is Some <==> later is Some),
        (other_app@ != app@ || other_host@ != host@) && earlier is Some ==> earlier->0@
            == later->0@,
{
}

/// A token is sent as a bearer in one header, and no header is sent without one.
pub proof fn lemma_bearer(token: Option<&str>, headers: Vec<(String, String)>)
    requires
        call_ensures(injector::token_headers, (token,), headers),
    ensures
        token is None ==> headers@.len() == 0,
        token matches Some(t) ==> headers@.len() == 1 && headers@[0].0@ == "authorization"@
            && headers@[0].1@ == "Bearer "@ + t@,
{
    let view = net::headers_view(headers@);
    if let Some(t) = token {
        assert(view.len() == 1);
        assert(view[0] == (headers@[0].0@, headers@[0].1@));
    } else {
        assert(view.len() == 0);
    }
}

/// A failure says what failed and then the words for it.
pub proof fn lemma_failures_in_words(t: Seq<char>)
    ensures
        OAuthErrorView::Provider(Provider::Google).message() == "provider not configured: Google"@,
        OAuthErrorView::Authorize(t).message() == "authorization failed: "@ + t,
        OAuthErrorView::AuthorizationPending.message() == "authorization pending"@,
        OAuthErrorView::Refresh(t).message() == "token refresh failed: "@ + t,
        OAuthErrorView::NotFound(t).message() == "no credential stored for handle: "@ + t,
        OAuthErrorView::BadHandle(t).message() == "invalid handle: "@ + t,
        OAuthErrorView::Secret(t).message() == "secret store error: "@ + t,
        OAuthErrorView::Http(t).message() == "http error: "@ + t,
{
    reveal_strlit("provider not configured: ");
    reveal_strlit("Google");
    reveal_strlit("provider not configured: Google");
    assert("provider not configured: "@ + "Google"@ =~= "provider not configured: Google"@);
}

/// A handle names the provider that it was made for.
pub proof fn lemma_made_for_its_provider(
    app: &str,
    account: &str,
    p: Provider,
    made: SecretHandle,
    named: Result<Provider, OAuthError>,
)
    requires
        !account@.contains('/'),
        call_ensures(SecretHandle::new, (app, p, account), made),
        call_ensures(SecretHandle::provider, (&made,), named),
    ensures
        named == Ok::<Provider, OAuthError>(p),
{
    handle::lemma_handle_names_its_provider(app@, p, account@);
}

} // verus!
