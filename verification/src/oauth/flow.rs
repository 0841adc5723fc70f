//! Getting tokens from providers, keeping them, and renewing them in time.

use vstd::prelude::*;
use crate::json;
use crate::json::Json;
use crate::json::JsonNumberView;
use crate::json::JsonView;
use crate::oauth::handle;
use crate::oauth::handle::OAuthError;
use crate::oauth::handle::OAuthErrorView;
use crate::oauth::handle::Provider;
use crate::oauth::handle::SecretHandle;
use crate::oauth::store;
use crate::oauth::store::SecretStore;
use crate::sorted_map;
use crate::sorted_map::SortedMap;
use crate::text;

verus! {

/// How near to its end a token is renewed, in milliseconds.
pub const SKEW_MS: u64 = 60_000;

/// Where a provider is, and who asks.
pub struct ProviderConfig {
    pub token_url: String,
    /// Where consent on another device begins; a provider may have no such place.
    pub device_authorization_url: Option<String>,
    pub client_id: String,
    pub client_secret: Option<String>,
    pub scopes: Vec<String>,
}

/// What a provider's settings are.
#[verifier::ext_equal]
pub struct ConfigView {
    pub token_url: Seq<char>,
    pub device_authorization_url: Option<Seq<char>>,
    pub client_id: Seq<char>,
    pub client_secret: Option<Seq<char>>,
    pub scopes: Seq<Seq<char>>,
}

impl View for ProviderConfig {
    type V = ConfigView;

    open spec fn view(&self) -> ConfigView {
        ConfigView {
            token_url: self.token_url@,
            device_authorization_url: text::opt_view(self.device_authorization_url),
            client_id: self.client_id@,
            client_secret: text::opt_view(self.client_secret),
            scopes: text::views(self.scopes@),
        }
    }
}

/// The tokens of an account.
pub struct TokenSet {
    pub access: String,
    pub refresh: Option<String>,
    /// When the access token ends, in milliseconds.
    pub expires_at_ms: u64,
}

/// What tokens are.
#[verifier::ext_equal]
pub struct TokenView {
    pub access: Seq<char>,
    pub refresh: Option<Seq<char>>,
    pub expires_at_ms: u64,
}

impl View for TokenSet {
    type V = TokenView;

    open spec fn view(&self) -> TokenView {
        TokenView {
            access: self.access@,
            refresh: text::opt_view(self.refresh),
            expires_at_ms: self.expires_at_ms,
        }
    }
}

/// The document of tokens.
pub open spec fn token_json(t: TokenView) -> JsonView {
    JsonView::Object(
        Map::empty().insert("access"@, JsonView::Text(t.access)).insert(
            "refresh"@,
            json::opt_text(t.refresh),
        ).insert(
            "expires_at_ms"@,
            JsonView::Number(JsonNumberView::Natural(t.expires_at_ms)),
        ),
    )
}

/// The members of the document of tokens.
pub open spec fn token_fields() -> Seq<&'static str> {
    seq!["access", "refresh", "expires_at_ms"]
}

/// The tokens that a document holds, by the names of its members or by their places.
pub open spec fn token_of_json(v: JsonView) -> Option<TokenView> {
    token_of_members(json::named(v, token_fields()))
}

/// The tokens that an object holds.
pub open spec fn token_of_members(v: JsonView) -> Option<TokenView> {
    let refresh = match v.field("refresh"@) {
        None => Some(None::<Seq<char>>),
        Some(JsonView::Null) => Some(None::<Seq<char>>),
        Some(JsonView::Text(t)) => Some(Some(t)),
        Some(_) => None,
    };
    match (v.text_field("access"@), refresh, v.natural_field("expires_at_ms"@)) {
        (Some(access), Some(refresh), Some(expires_at_ms)) => Some(
            TokenView { access, refresh, expires_at_ms },
        ),
        _ => None,
    }
}

impl TokenSet {
    /// The document of the tokens.
    pub fn to_json(&self) -> (v: Json)
        ensures
            v@ == token_json(self@),
    {
        Json::object().with("access", Json::of_text(self.access.as_str())).with(
            "refresh",
            Json::of_opt_text(&self.refresh),
        ).with("expires_at_ms", Json::of_natural(self.expires_at_ms))
    }

    /// The tokens that a document holds.
    pub fn from_json(v: &Json) -> (tokens: Option<TokenSet>)
        ensures
            (match tokens {
                Some(t) => Some(t@),
                None => None,
            }) == token_of_json(v@),
    {
        let names: Vec<&'static str> = vec!["access", "refresh", "expires_at_ms"];
        assert(names@ =~= token_fields());
        let v = v.with_names(&names);
        let refresh = match v.get("refresh") {
            None => Some(None),
            Some(Json::Null) => Some(None),
            Some(Json::Text(t)) => Some(Some(t.clone())),
            Some(_) => None,
        };
        match (v.get_text("access"), refresh, v.get_natural("expires_at_ms")) {
            (Some(access), Some(refresh), Some(expires_at_ms)) => Some(
                TokenSet { access, refresh, expires_at_ms },
            ),
            _ => None,
        }
    }
}

/// Tokens that were written are read back.
pub proof fn lemma_tokens_come_back(t: TokenView)
    ensures
        token_of_json(token_json(t)) == Some(t),
        json::plain(token_json(t), 127),
{
    reveal_strlit("access");
    reveal_strlit("refresh");
    reveal_strlit("expires_at_ms");
    assert("access"@.len() == 6 && "refresh"@.len() == 7 && "expires_at_ms"@.len() == 13);
    let members = token_json(t)->Object_0;
    assert forall|k: Seq<char>| members.dom().contains(k) implies json::plain(
        #[trigger] members[k],
        126,
    ) by {
        if k == "access"@ {
        } else if k == "refresh"@ {
        } else {
            assert(k == "expires_at_ms"@);
        }
    }
}

/// What a provider answers when it is asked for consent on another device.
pub struct DeviceAuth {
    pub device_code: String,
    pub user_code: String,
    pub verification_uri: String,
    pub verification_uri_complete: Option<String>,
    /// How long to wait between two questions, in seconds.
    pub interval: u64,
    /// How long consent can be given, in seconds.
    pub expires_in: u64,
}

/// The interval where a provider gives none, in seconds.
pub fn default_interval() -> (seconds: u64)
    ensures
        seconds == 5,
{
    5
}

/// What a provider answers when it is asked for a token.
pub struct TokenResponse {
    pub access_token: String,
    pub expires_in: u64,
    pub refresh_token: Option<String>,
    pub error: Option<String>,
}

/// A form to post.
pub struct FormRequest {
    pub url: String,
    pub fields: Vec<(String, String)>,
}

/// What a form is.
#[verifier::ext_equal]
pub struct FormView {
    pub url: Seq<char>,
    pub fields: Seq<(Seq<char>, Seq<char>)>,
}

/// What fields are.
pub open spec fn fields_view(fields: Seq<(String, String)>) -> Seq<(Seq<char>, Seq<char>)> {
    Seq::new(fields.len(), |i: int| (fields[i].0@, fields[i].1@))
}

impl View for FormRequest {
    type V = FormView;

    open spec fn view(&self) -> FormView {
        FormView { url: self.url@, fields: fields_view(self.fields@) }
    }
}

/// The fields with the secret of the client behind them, where it has one.
pub open spec fn with_secret(fields: Seq<(Seq<char>, Seq<char>)>, secret: Option<Seq<char>>) -> Seq<
    (Seq<char>, Seq<char>),
> {
    match secret {
        Some(s) => fields.push(("client_secret"@, s)),
        None => fields,
    }
}

/// The form that renews a token.
pub open spec fn refresh_form(c: ConfigView, refresh_token: Seq<char>) -> FormView {
    FormView {
        url: c.token_url,
        fields: with_secret(
            seq![
                ("grant_type"@, "refresh_token"@),
                ("refresh_token"@, refresh_token),
                ("client_id"@, c.client_id),
            ],
            c.client_secret,
        ),
    }
}

/// The form that asks for consent on another device.
pub open spec fn device_form(c: ConfigView, url: Seq<char>) -> FormView {
    FormView {
        url,
        fields: seq![("client_id"@, c.client_id), ("scope"@, text::joined(c.scopes, " "@))],
    }
}

/// The form that asks whether consent was given.
pub open spec fn token_form(c: ConfigView, device_code: Seq<char>) -> FormView {
    FormView {
        url: c.token_url,
        fields: with_secret(
            seq![
                ("grant_type"@, "urn:ietf:params:oauth:grant-type:device_code"@),
                ("device_code"@, device_code),
                ("client_id"@, c.client_id),
            ],
            c.client_secret,
        ),
    }
}

/// When a token that lasts so many seconds ends; the latest time stands for any later
/// one.
pub open spec fn end_of(now_ms: u64, seconds: u64) -> u64 {
    if now_ms + seconds * 1000 > u64::MAX {
        u64::MAX
    } else {
        (now_ms + seconds * 1000) as u64
    }
}

fn end_after(now_ms: u64, seconds: u64) -> (end: u64)
    ensures
        end == end_of(now_ms, seconds),
{
    let end: u128 = now_ms as u128 + seconds as u128 * 1000;
    if end > u64::MAX as u128 {
        u64::MAX
    } else {
        end as u64
    }
}

/// Whether tokens are good for a while.
pub open spec fn lasting(t: TokenView, now_ms: u64) -> bool {
    t.expires_at_ms > now_ms + SKEW_MS
}

/// The tokens that a renewal gave. A provider that gives no new refresh token leaves the
/// old one in force.
pub open spec fn renewed(body: TokenResponse, refresh_token: Seq<char>, now_ms: u64) -> Result<
    TokenView,
    OAuthErrorView,
> {
    match body.error {
        Some(e) => Err(OAuthErrorView::Refresh(e@)),
        None => Ok(
            TokenView {
                access: body.access_token@,
                refresh: match body.refresh_token {
                    Some(t) => Some(t@),
                    None => Some(refresh_token),
                },
                expires_at_ms: end_of(now_ms, body.expires_in),
            },
        ),
    }
}

/// The tokens that consent gave, or that it is still awaited, or why there are none.
pub open spec fn granted(body: TokenResponse, now_ms: u64) -> Result<TokenView, OAuthErrorView> {
    match body.error {
        Some(e) => if e@ == "authorization_pending"@ || e@ == "slow_down"@ {
            Err(OAuthErrorView::AuthorizationPending)
        } else {
            Err(OAuthErrorView::Authorize(e@))
        },
        None => Ok(
            TokenView {
                access: body.access_token@,
                refresh: text::opt_view(body.refresh_token),
                expires_at_ms: end_of(now_ms, body.expires_in),
            },
        ),
    }
}

/// What an attempt to get tokens gave.
pub open spec fn tokens_result(r: Result<TokenSet, OAuthError>) -> Result<
    TokenView,
    OAuthErrorView,
> {
    match r {
        Ok(t) => Ok(t@),
        Err(e) => Err(e@),
    }
}

/// The tokens that a renewal gave.
pub fn read_renewal(body: TokenResponse, refresh_token: &str, now_ms: u64) -> (tokens: Result<
    TokenSet,
    OAuthError,
>)
    ensures
        tokens_result(tokens) == renewed(body, refresh_token@, now_ms),
{
    match body.error {
        Some(e) => Err(OAuthError::Refresh(e)),
        None => {
            let refresh = match body.refresh_token {
                Some(t) => t,
                None => refresh_token.to_string(),
            };
            Ok(
                TokenSet {
                    access: body.access_token,
                    refresh: Some(refresh),
                    expires_at_ms: end_after(now_ms, body.expires_in),
                },
            )
        },
    }
}

/// The tokens that consent gave.
pub fn read_grant(body: TokenResponse, now_ms: u64) -> (tokens: Result<TokenSet, OAuthError>)
    ensures
        tokens_result(tokens) == granted(body, now_ms),
{
    match body.error {
        Some(e) => {
            if text::same_text(e.as_str(), "authorization_pending") || text::same_text(
                e.as_str(),
                "slow_down",
            ) {
                Err(OAuthError::AuthorizationPending)
            } else {
                Err(OAuthError::Authorize(e))
            }
        },
        None => Ok(
            TokenSet {
                access: body.access_token,
                refresh: body.refresh_token,
                expires_at_ms: end_after(now_ms, body.expires_in),
            },
        ),
    }
}

fn push_field(fields: &mut Vec<(String, String)>, name: &str, value: &str)
    ensures
        fields_view(final(fields)@) == fields_view(old(fields)@).push((name@, value@)),
{
    fields.push((name.to_string(), value.to_string()));
    assert(fields_view(fields@) =~= fields_view(old(fields)@).push((name@, value@)));
}

fn three_fields(
    config: &ProviderConfig,
    grant: &str,
    name: &str,
    value: &str,
) -> (fields: Vec<(String, String)>)
    ensures
        fields_view(fields@) == with_secret(
            seq![("grant_type"@, grant@), (name@, value@), ("client_id"@, config@.client_id)],
            config@.client_secret,
        ),
{
    let mut fields: Vec<(String, String)> = Vec::new();
    assert(fields_view(fields@) =~= Seq::<(Seq<char>, Seq<char>)>::empty());
    push_field(&mut fields, "grant_type", grant);
    push_field(&mut fields, name, value);
    push_field(&mut fields, "client_id", config.client_id.as_str());
    assert(fields_view(fields@) =~= seq![
        ("grant_type"@, grant@),
        (name@, value@),
        ("client_id"@, config@.client_id),
    ]);
    if let Some(secret) = &config.client_secret {
        push_field(&mut fields, "client_secret", secret.as_str());
    }
    fields
}

// ---------------------------------------------------------------------------
// The flow
// ---------------------------------------------------------------------------

/// The tokens that a store holds under a handle.
pub open spec fn loaded(secrets: Map<Seq<char>, Seq<u8>>, handle: Seq<char>) -> Result<
    TokenView,
    OAuthErrorView,
> {
    match store::kept(secrets, handle) {
        None => Err(OAuthErrorView::NotFound(handle)),
        Some(bytes) => tokens_of_bytes(bytes),
    }
}

/// The tokens in what was kept.
pub open spec fn tokens_of_bytes(bytes: Seq<u8>) -> Result<TokenView, OAuthErrorView> {
    match text::utf8_text(bytes) {
        None => Err(OAuthErrorView::Secret("invalid utf-8"@)),
        Some(t) => match json::reading(t) {
            Err(e) => Err(OAuthErrorView::Secret(e)),
            Ok(v) => match token_of_json(v) {
                None => Err(OAuthErrorView::Secret("not a token set"@)),
                Some(tokens) => Ok(tokens),
            },
        },
    }
}

/// What getting an access token takes.
pub enum AccessStep {
    /// Nothing: this is it.
    Token(String),
    /// To renew it: the form to post, and the token that it is renewed with.
    Renew { form: FormRequest, refresh_token: String },
}

/// What such a step is.
#[allow(inconsistent_fields)]
#[verifier::ext_equal]
pub enum AccessView {
    Token(Seq<char>),
    Renew { form: FormView, refresh_token: Seq<char> },
}

impl View for AccessStep {
    type V = AccessView;

    open spec fn view(&self) -> AccessView {
        match self {
            AccessStep::Token(t) => AccessView::Token(t@),
            AccessStep::Renew { form, refresh_token } => AccessView::Renew {
                form: form@,
                refresh_token: refresh_token@,
            },
        }
    }
}

/// What getting an access token takes, for the tokens that are kept: a token that lasts is
/// used, one that does not is renewed where there is a token for that.
pub open spec fn access_view(
    tokens: TokenView,
    handle: Seq<char>,
    providers: Map<Seq<char>, ConfigView>,
    now_ms: u64,
) -> Result<AccessView, OAuthErrorView> {
    if lasting(tokens, now_ms) {
        Ok(AccessView::Token(tokens.access))
    } else {
        match handle::handle_provider(handle) {
            None => Err(OAuthErrorView::BadHandle(handle)),
            Some(p) => if !providers.dom().contains(p.name()) {
                Err(OAuthErrorView::Provider(p))
            } else {
                match tokens.refresh {
                    None => Err(
                        OAuthErrorView::Refresh("access token expired, no refresh token"@),
                    ),
                    Some(refresh_token) => Ok(
                        AccessView::Renew {
                            form: refresh_form(providers[p.name()], refresh_token),
                            refresh_token,
                        },
                    ),
                }
            },
        }
    }
}

/// Gets tokens and keeps them.
pub struct OAuthFlow<S: SecretStore> {
    pub store: S,
    pub configs: SortedMap<ProviderConfig>,
}

impl<S: SecretStore> OAuthFlow<S> {
    /// The settings of the providers, by their names.
    pub open spec fn providers(&self) -> Map<Seq<char>, ConfigView> {
        sorted_map::as_map(sorted_map::deep(self.configs@))
    }

    /// A flow without providers.
    pub fn new(store: S) -> (flow: Self)
        ensures
            flow.store == store,
            flow.providers() == Map::<Seq<char>, ConfigView>::empty(),
    {
        let flow = OAuthFlow { store, configs: SortedMap::new() };
        assert(flow.providers() =~= Map::<Seq<char>, ConfigView>::empty());
        flow
    }

    /// The flow with the settings of one more provider.
    pub fn with_provider(self, provider: Provider, config: ProviderConfig) -> (flow: Self)
        ensures
            flow.store == self.store,
            flow.providers() == self.providers().insert(provider.name(), config@),
    {
        let mut flow = self;
        let ghost before = flow.configs@;
        flow.configs.insert(provider.as_str(), config);
        proof {
            sorted_map::lemma_deep_put(before, provider.name(), config);
            sorted_map::lemma_deep_map(before);
            sorted_map::lemma_put(sorted_map::deep(before), provider.name(), config@);
        }
        flow
    }

    fn config(&self, provider: Provider) -> (config: Result<&ProviderConfig, OAuthError>)
        ensures
            match config {
                Ok(c) => self.providers().dom().contains(provider.name())
                    && self.providers()[provider.name()] == c@,
                Err(e) => !self.providers().dom().contains(provider.name()) && e@
                    == OAuthErrorView::Provider(provider),
            },
    {
        proof {
            sorted_map::lemma_deep_map(self.configs@);
        }
        match self.configs.get(provider.as_str()) {
            Some(config) => Ok(config),
            None => Err(OAuthError::Provider(provider)),
        }
    }

    /// Keeps tokens under a handle. They are found there again. A store that takes every
    /// secret takes them.
    pub fn store_tokens(&mut self, handle: &SecretHandle, tokens: &TokenSet) -> (result: Result<
        (),
        OAuthError,
    >)
        ensures
            final(self).providers() == old(self).providers(),
            old(self).store.takes_all() ==> result is Ok && final(self).store.takes_all(),
            result is Ok ==> final(self).store.secrets() == old(self).store.secrets().insert(
                handle@,
                vstd::utf8::encode_utf8(json::written(token_json(tokens@))),
            ) && loaded(final(self).store.secrets(), handle@) == Ok::<TokenView, OAuthErrorView>(
                tokens@,
            ),
    {
        let v = tokens.to_json();
        let t = json::write(&v);
        proof {
            lemma_tokens_come_back(tokens@);
            text::lemma_utf8_text(t@);
        }
        let bytes = t.as_str().as_bytes_vec();
        self.store.put(handle.0.as_str(), &bytes)
    }

    /// The tokens that are kept under a handle.
    pub fn load_tokens(&self, handle: &SecretHandle) -> (tokens: Result<TokenSet, OAuthError>)
        ensures
            self.store.takes_all() ==> tokens_result(tokens) == loaded(
                self.store.secrets(),
                handle@,
            ),
            tokens matches Ok(t) ==> loaded(self.store.secrets(), handle@) == Ok::<
                TokenView,
                OAuthErrorView,
            >(t@),
    {
        read_kept(self.store.get(handle.0.as_str()), handle)
    }

    /// What getting an access token takes for the tokens that are kept.
    pub fn access_step(&self, tokens: &TokenSet, handle: &SecretHandle, now_ms: u64) -> (step:
        Result<AccessStep, OAuthError>)
        ensures
            (match step {
                Ok(s) => Ok(s@),
                Err(e) => Err(e@),
            }) == access_view(tokens@, handle@, self.providers(), now_ms),
    {
        if now_ms <= u64::MAX - SKEW_MS && tokens.expires_at_ms > now_ms + SKEW_MS {
            return Ok(AccessStep::Token(tokens.access.clone()));
        }
        let provider = match handle.provider() {
            Ok(p) => p,
            Err(e) => {
                return Err(e);
            },
        };
        let config = match self.config(provider) {
            Ok(c) => c,
            Err(e) => {
                return Err(e);
            },
        };
        match &tokens.refresh {
            None => Err(
                OAuthError::Refresh("access token expired, no refresh token".to_string()),
            ),
            Some(refresh_token) => {
                let fields = three_fields(
                    config,
                    "refresh_token",
                    "refresh_token",
                    refresh_token.as_str(),
                );
                let form = FormRequest { url: config.token_url.clone(), fields };
                Ok(AccessStep::Renew { form, refresh_token: refresh_token.clone() })
            },
        }
    }

    /// Takes the answer to a renewal: keeps the tokens and gives the access token.
    pub fn finish_renewal(
        &mut self,
        handle: &SecretHandle,
        body: TokenResponse,
        refresh_token: &str,
        now_ms: u64,
    ) -> (access: Result<String, OAuthError>)
        ensures
            final(self).providers() == old(self).providers(),
            match renewed(body, refresh_token@, now_ms) {
                Err(e) => access matches Err(f) && f@ == e && final(self).store == old(self).store,
                Ok(t) => access matches Ok(a) ==> a@ == t.access && loaded(
                    final(self).store.secrets(),
                    handle@,
                ) == Ok::<TokenView, OAuthErrorView>(t),
            },
            old(self).store.takes_all() ==> final(self).store.takes_all(),
            old(self).store.takes_all() && renewed(body, refresh_token@, now_ms) is Ok
                ==> access is Ok,
    {
        match read_renewal(body, refresh_token, now_ms) {
            Err(e) => Err(e),
            Ok(tokens) => match self.store_tokens(handle, &tokens) {
                Err(e) => Err(e),
                Ok(()) => Ok(tokens.access),
            },
        }
    }

    /// The form that asks a provider for consent on another device.
    pub fn device_request(&self, provider: Provider) -> (form: Result<FormRequest, OAuthError>)
        ensures
            (match form {
                Ok(f) => Ok(f@),
                Err(e) => Err(e@),
            }) == device_request_view(self.providers(), provider),
    {
        let config = match self.config(provider) {
            Ok(c) => c,
            Err(e) => {
                return Err(e);
            },
        };
        match &config.device_authorization_url {
            None => Err(OAuthError::Authorize("provider has no device endpoint".to_string())),
            Some(url) => {
                let mut fields: Vec<(String, String)> = Vec::new();
                assert(fields_view(fields@) =~= Seq::<(Seq<char>, Seq<char>)>::empty());
                push_field(&mut fields, "client_id", config.client_id.as_str());
                let scope = text::join(&config.scopes, " ");
                push_field(&mut fields, "scope", scope.as_str());
                assert(fields_view(fields@) =~= device_form(config@, url@).fields);
                Ok(FormRequest { url: url.clone(), fields })
            },
        }
    }

    /// The form that asks a provider whether consent was given.
    pub fn token_request(&self, provider: Provider, device_code: &str) -> (form: Result<
        FormRequest,
        OAuthError,
    >)
        ensures
            match form {
                Ok(f) => self.providers().dom().contains(provider.name()) && f@ == token_form(
                    self.providers()[provider.name()],
                    device_code@,
                ),
                Err(e) => !self.providers().dom().contains(provider.name()) && e@
                    == OAuthErrorView::Provider(provider),
            },
    {
        let config = match self.config(provider) {
            Ok(c) => c,
            Err(e) => {
                return Err(e);
            },
        };
        let fields = three_fields(
            config,
            "urn:ietf:params:oauth:grant-type:device_code",
            "device_code",
            device_code,
        );
        Ok(FormRequest { url: config.token_url.clone(), fields })
    }

    /// Removes the tokens of a handle.
    pub fn revoke(&mut self, handle: &SecretHandle) -> (result: Result<(), OAuthError>)
        ensures
            final(self).providers() == old(self).providers(),
            old(self).store.takes_all() ==> result is Ok && final(self).store.takes_all(),
            result is Ok ==> final(self).store.secrets() == old(self).store.secrets().remove(
                handle@,
            ) && loaded(final(self).store.secrets(), handle@) == Err::<TokenView, OAuthErrorView>(
                OAuthErrorView::NotFound(handle@),
            ),
    {
        self.store.delete(handle.0.as_str())
    }
}

/// The form that asks for consent on another device, or why there is none.
pub open spec fn device_request_view(
    providers: Map<Seq<char>, ConfigView>,
    provider: Provider,
) -> Result<FormView, OAuthErrorView> {
    if !providers.dom().contains(provider.name()) {
        Err(OAuthErrorView::Provider(provider))
    } else {
        match providers[provider.name()].device_authorization_url {
            None => Err(OAuthErrorView::Authorize("provider has no device endpoint"@)),
            Some(url) => Ok(device_form(providers[provider.name()], url)),
        }
    }
}

/// The tokens in what a store gave for a handle, which may be a failure of its own.
pub fn read_kept(got: Result<Option<Vec<u8>>, OAuthError>, handle: &SecretHandle) -> (tokens:
    Result<TokenSet, OAuthError>)
    ensures
        tokens_result(tokens) == (match got {
            Err(e) => Err(e@),
            Ok(None) => Err(OAuthErrorView::NotFound(handle@)),
            Ok(Some(bytes)) => tokens_of_bytes(bytes@),
        }),
{
    match got {
        Err(e) => Err(e),
        Ok(None) => Err(OAuthError::NotFound(handle.0.clone())),
        Ok(Some(bytes)) => read_tokens(&bytes),
    }
}

/// The tokens in what was kept.
pub fn read_tokens(bytes: &Vec<u8>) -> (tokens: Result<TokenSet, OAuthError>)
    ensures
        tokens_result(tokens) == tokens_of_bytes(bytes@),
{
    match text::text_of_bytes(bytes) {
        None => Err(OAuthError::Secret("invalid utf-8".to_string())),
        Some(t) => match json::read(t.as_str()) {
            Err(e) => Err(OAuthError::Secret(e)),
            Ok(v) => match TokenSet::from_json(&v) {
                None => Err(OAuthError::Secret("not a token set".to_string())),
                Some(tokens) => Ok(tokens),
            },
        },
    }
}

// ---------------------------------------------------------------------------
// Waiting for consent
// ---------------------------------------------------------------------------

/// What to do while consent on another device is awaited.
pub enum ConsentStep {
    /// To wait so many seconds and ask again.
    Wait { seconds: u64 },
    /// To keep the tokens.
    Done { tokens: TokenSet },
    /// To give up.
    Failed { error: OAuthError },
}

/// What such a step is.
#[allow(inconsistent_fields)]
#[verifier::ext_equal]
pub enum ConsentView {
    Wait { seconds: u64 },
    Done { tokens: TokenView },
    Failed { error: OAuthErrorView },
}

impl View for ConsentStep {
    type V = ConsentView;

    open spec fn view(&self) -> ConsentView {
        match self {
            ConsentStep::Wait { seconds } => ConsentView::Wait { seconds: *seconds },
            ConsentStep::Done { tokens } => ConsentView::Done { tokens: tokens@ },
            ConsentStep::Failed { error } => ConsentView::Failed { error: error@ },
        }
    }
}

/// How long consent is awaited.
pub struct Consent {
    pub deadline_ms: u64,
    pub interval: u64,
}

impl Consent {
    /// Begins to wait: until the time that the provider gave, or for ten minutes where it
    /// gave none.
    pub fn begin(device: &DeviceAuth, now_ms: u64) -> (consent: Self)
        ensures
            consent.deadline_ms == end_of(
                now_ms,
                if device.expires_in > 0 {
                    device.expires_in
                } else {
                    600
                },
            ),
            consent.interval == (if device.interval > 1 {
                device.interval
            } else {
                1
            }),
    {
        let seconds: u64 = if device.expires_in > 0 {
            device.expires_in
        } else {
            600
        };
        let interval: u64 = if device.interval > 1 {
            device.interval
        } else {
            1
        };
        Consent { deadline_ms: end_after(now_ms, seconds), interval }
    }

    /// What to do before the next question: to wait, unless it is too late.
    pub open spec fn pause_view(self, now_ms: u64) -> ConsentView {
        if now_ms > self.deadline_ms {
            ConsentView::Failed { error: OAuthErrorView::Authorize("device flow expired"@) }
        } else {
            ConsentView::Wait { seconds: self.interval }
        }
    }

    /// What to do before the next question.
    pub fn pause(&self, now_ms: u64) -> (step: ConsentStep)
        ensures
            step@ == self.pause_view(now_ms),
    {
        if now_ms > self.deadline_ms {
            ConsentStep::Failed { error: OAuthError::Authorize("device flow expired".to_string()) }
        } else {
            ConsentStep::Wait { seconds: self.interval }
        }
    }

    /// What to do with an answer: an answer that consent is still awaited is no end.
    pub open spec fn answer_view(self, result: Result<TokenView, OAuthErrorView>, now_ms: u64) -> ConsentView {
        match result {
            Ok(tokens) => ConsentView::Done { tokens },
            Err(OAuthErrorView::AuthorizationPending) => self.pause_view(now_ms),
            Err(error) => ConsentView::Failed { error },
        }
    }

    /// What to do with an answer.
    pub fn answer(&self, result: Result<TokenSet, OAuthError>, now_ms: u64) -> (step: ConsentStep)
        ensures
            step@ == self.answer_view(tokens_result(result), now_ms),
    {
        match result {
            Ok(tokens) => ConsentStep::Done { tokens },
            Err(OAuthError::AuthorizationPending) => self.pause(now_ms),
            Err(error) => ConsentStep::Failed { error },
        }
    }
}

// ---------------------------------------------------------------------------
// What the flow promises
// ---------------------------------------------------------------------------

/// A token that was just renewed is used until it is near its end: it is not renewed
/// again before.
pub proof fn lemma_renewed_token_lasts(
    body: TokenResponse,
    refresh_token: Seq<char>,
    renewed_ms: u64,
    now_ms: u64,
    handle: Seq<char>,
    providers: Map<Seq<char>, ConfigView>,
)
    requires
        body.error is None,
        now_ms + SKEW_MS < end_of(renewed_ms, body.expires_in),
    ensures
        renewed(body, refresh_token, renewed_ms) matches Ok(t) && access_view(
            t,
            handle,
            providers,
            now_ms,
        ) == Ok::<AccessView, OAuthErrorView>(AccessView::Token(body.access_token@)),
{
}

/// Renewing never loses the means to renew: the tokens after it have a refresh token.
pub proof fn lemma_renewal_can_be_repeated(
    body: TokenResponse,
    refresh_token: Seq<char>,
    now_ms: u64,
)
    ensures
        renewed(body, refresh_token, now_ms) matches Ok(t) ==> t.refresh is Some,
{
}

/// Waiting for consent ends: once it is too late no further question is asked.
pub proof fn lemma_waiting_ends(c: Consent, result: Result<TokenView, OAuthErrorView>, now_ms: u64)
    requires
        now_ms > c.deadline_ms,
    ensures
        !(c.answer_view(result, now_ms) is Wait),
        !(c.pause_view(now_ms) is Wait),
{
}

} // verus!
