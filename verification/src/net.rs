//! The broker through which applications reach the network.
//!
//! An application never opens a socket. It asks the broker, which lets the
//! request pass only to the hosts that the application declared, adds
//! credentials that the application does not see, bounds the answer and keeps an
//! audit record.

use vstd::prelude::*;
use crate::json;
use crate::json::Json;
use crate::json::JsonNumberView;
use crate::json::JsonView;
use crate::sorted_map;
use crate::sorted_map::SortedMap;
use crate::text;

verus! {

/// How much of an answer is read where nothing else is set: eight mebibytes.
pub const DEFAULT_MAX_BODY: usize = 8_388_608;

// ---------------------------------------------------------------------------
// Hosts
// ---------------------------------------------------------------------------

/// A host and port that may be reached. The host `*` stands for any host.
pub struct HostPort {
    pub host: String,
    pub port: u16,
}

/// What a host and port is.
#[verifier::ext_equal]
pub struct HostPortView {
    pub host: Seq<char>,
    pub port: u16,
}

impl View for HostPort {
    type V = HostPortView;

    open spec fn view(&self) -> HostPortView {
        HostPortView { host: self.host@, port: self.port }
    }
}

/// The entry that a text stands for: what stands before its last colon is the
/// host, and what stands behind it the port.
pub open spec fn entry_of(s: Seq<char>) -> Option<HostPortView> {
    if s.contains(':') {
        let i = choose|i: int| text::last_at(s, ':', i);
        match text::short_number(s.skip(i + 1)) {
            Some(port) => Some(HostPortView { host: s.take(i), port }),
            None => None,
        }
    } else {
        None
    }
}

/// The entry of a host without colons behind it and a port.
pub proof fn lemma_entry(host: Seq<char>, port: Seq<char>)
    requires
        !port.contains(':'),
    ensures
        entry_of(host + ":"@ + port) == (match text::short_number(port) {
            Some(p) => Some(HostPortView { host, port: p }),
            None => None,
        }),
{
    reveal_strlit(":");
    let s = host + ":"@ + port;
    let n = host.len() as int;
    assert(s[n] == ':');
    assert forall|k: int| n < k < s.len() implies s[k] != ':' by {
        assert(s[k] == port[k - n - 1]);
    }
    assert(text::last_at(s, ':', n));
    lemma_last_at(s, n);
    assert(s.take(n) =~= host);
    assert(s.skip(n + 1) =~= port);
}

proof fn lemma_last_at(s: Seq<char>, i: int)
    requires
        text::last_at(s, ':', i),
    ensures
        s.contains(':'),
        (choose|j: int| text::last_at(s, ':', j)) == i,
{
    assert(s[i] == ':');
    let j = choose|j: int| text::last_at(s, ':', j);
    assert(text::last_at(s, ':', j));
}

/// What an optional entry is.
pub open spec fn opt_entry(entry: Option<HostPort>) -> Option<HostPortView> {
    match entry {
        Some(e) => Some(e@),
        None => None,
    }
}

impl HostPort {
    /// Reads an entry of the form `host:port`.
    pub fn parse(s: &str) -> (entry: Option<HostPort>)
        ensures
            opt_entry(entry) == entry_of(s@),
    {
        match text::rsplit_once(s, ':') {
            None => None,
            Some((host, port_text)) => {
                proof {
                    lemma_last_at(s@, host@.len() as int);
                }
                match text::parse_short(port_text.as_str()) {
                    Some(port) => Some(HostPort { host, port }),
                    None => None,
                }
            },
        }
    }
}

/// The hosts of one application.
pub struct HostList {
    pub hosts: Vec<HostPort>,
}

impl View for HostList {
    type V = Seq<HostPortView>;

    open spec fn view(&self) -> Seq<HostPortView> {
        Seq::new(self.hosts@.len(), |i: int| self.hosts@[i]@)
    }
}

/// Whether a list lets a host and port pass: they are on it, or any host is.
pub open spec fn lets_pass(list: Seq<HostPortView>, host: Seq<char>, port: u16) -> bool {
    exists|i: int|
        0 <= i < list.len() && ((#[trigger] list[i]).host == "*"@ || (list[i].host == host
            && list[i].port == port))
}

// ---------------------------------------------------------------------------
// Requests
// ---------------------------------------------------------------------------

/// A request of an application.
pub struct FetchRequest {
    pub method: String,
    pub url: String,
    pub headers: Vec<(String, String)>,
    pub body: Option<String>,
}

/// What an application gets back.
pub struct FetchResponse {
    pub status: u16,
    pub headers: Vec<(String, String)>,
    pub body: String,
}

/// The audit record of a request.
pub struct EgressAudit {
    pub app: String,
    pub method: String,
    pub host: String,
    pub port: u16,
    pub status: u16,
    pub bytes: usize,
    pub ts_ms: u64,
}

/// Headers as characters.
pub open spec fn headers_view(headers: Seq<(String, String)>) -> Seq<(Seq<char>, Seq<char>)> {
    Seq::new(headers.len(), |i: int| (headers[i].0@, headers[i].1@))
}

fn copy_headers(headers: &Vec<(String, String)>) -> (copy: Vec<(String, String)>)
    ensures
        headers_view(copy@) == headers_view(headers@),
{
    let mut copy: Vec<(String, String)> = Vec::new();
    let mut i: usize = 0;
    while i < headers.len()
        invariant
            i <= headers.len(),
            copy.len() == i,
            forall|k: int|
                0 <= k < i ==> (#[trigger] copy@[k]).0@ == headers@[k].0@ && copy@[k].1@
                    == headers@[k].1@,
        decreases headers.len() - i,
    {
        copy.push((headers[i].0.clone(), headers[i].1.clone()));
        i += 1;
    }
    assert(headers_view(copy@) =~= headers_view(headers@));
    copy
}

/// What a request is.
#[verifier::ext_equal]
pub struct FetchRequestView {
    pub method: Seq<char>,
    pub url: Seq<char>,
    pub headers: Seq<(Seq<char>, Seq<char>)>,
    pub body: Option<Seq<char>>,
}

impl View for FetchRequest {
    type V = FetchRequestView;

    open spec fn view(&self) -> FetchRequestView {
        FetchRequestView {
            method: self.method@,
            url: self.url@,
            headers: headers_view(self.headers@),
            body: text::opt_view(self.body),
        }
    }
}

/// What an answer is.
#[verifier::ext_equal]
pub struct FetchResponseView {
    pub status: u16,
    pub headers: Seq<(Seq<char>, Seq<char>)>,
    pub body: Seq<char>,
}

impl View for FetchResponse {
    type V = FetchResponseView;

    open spec fn view(&self) -> FetchResponseView {
        FetchResponseView {
            status: self.status,
            headers: headers_view(self.headers@),
            body: self.body@,
        }
    }
}

/// The header that a document holds: a list of two texts.
pub open spec fn header_of_json(v: JsonView) -> Option<(Seq<char>, Seq<char>)> {
    match v {
        JsonView::Array(items) => if items.len() == 2 && items[0] is Text && items[1] is Text {
            Some((items[0]->Text_0, items[1]->Text_0))
        } else {
            None
        },
        _ => None,
    }
}

/// The headers that a list of documents holds, where each holds one.
pub open spec fn headers_of_list(items: Seq<JsonView>) -> Option<Seq<(Seq<char>, Seq<char>)>>
    decreases items.len(),
{
    if items.len() == 0 {
        Some(Seq::empty())
    } else {
        match (headers_of_list(items.drop_last()), header_of_json(items.last())) {
            (Some(before), Some(h)) => Some(before.push(h)),
            _ => None,
        }
    }
}

/// The members of a request.
pub open spec fn request_fields() -> Seq<&'static str> {
    seq!["method", "url", "headers", "body"]
}

/// The request that a document holds, by the names of its members or by their places. Its
/// headers and its body may be left out.
pub open spec fn request_of_json(v: JsonView) -> Option<FetchRequestView> {
    let v = json::named(v, request_fields());
    let headers = match v.field("headers"@) {
        None => Some(Seq::<(Seq<char>, Seq<char>)>::empty()),
        Some(JsonView::Array(items)) => headers_of_list(items),
        Some(_) => None,
    };
    let body = match v.field("body"@) {
        None => Some(None::<Seq<char>>),
        Some(JsonView::Null) => Some(None::<Seq<char>>),
        Some(JsonView::Text(t)) => Some(Some(t)),
        Some(_) => None,
    };
    match (v.text_field("method"@), v.text_field("url"@), headers, body) {
        (Some(method), Some(url), Some(headers), Some(body)) => Some(
            FetchRequestView { method, url, headers, body },
        ),
        _ => None,
    }
}

/// The document of headers.
pub open spec fn headers_json(headers: Seq<(Seq<char>, Seq<char>)>) -> JsonView {
    JsonView::Array(
        Seq::new(
            headers.len(),
            |i: int|
                JsonView::Array(seq![JsonView::Text(headers[i].0), JsonView::Text(headers[i].1)]),
        ),
    )
}

/// The document of an answer.
pub open spec fn response_json(r: FetchResponseView) -> JsonView {
    JsonView::Object(
        Map::empty().insert(
            "status"@,
            JsonView::Number(JsonNumberView::Natural(r.status as u64)),
        ).insert("headers"@, headers_json(r.headers)).insert("body"@, JsonView::Text(r.body)),
    )
}

proof fn lemma_headers_fail(items: Seq<JsonView>, at: int)
    requires
        0 <= at < items.len(),
        header_of_json(items[at]) is None,
    ensures
        headers_of_list(items) is None,
    decreases items.len(),
{
    if at < items.len() - 1 {
        assert(items.drop_last()[at] == items[at]);
        lemma_headers_fail(items.drop_last(), at);
    }
}

fn read_header(v: &Json) -> (header: Option<(String, String)>)
    ensures
        (match header {
            Some(h) => Some((h.0@, h.1@)),
            None => None,
        }) == header_of_json(v@),
{
    match v {
        Json::Array(items) => {
            proof {
                json::lemma_items_view(items@);
            }
            if items.len() != 2 {
                return None;
            }
            assert(json::items_view(items@)[0] == items@[0]@);
            assert(json::items_view(items@)[1] == items@[1]@);
            match (&items[0], &items[1]) {
                (Json::Text(name), Json::Text(value)) => Some((name.clone(), value.clone())),
                _ => None,
            }
        },
        _ => None,
    }
}

/// What optional headers are.
pub open spec fn opt_headers(headers: Option<Vec<(String, String)>>) -> Option<
    Seq<(Seq<char>, Seq<char>)>,
> {
    match headers {
        Some(list) => Some(headers_view(list@)),
        None => None,
    }
}

fn read_headers(items: &Vec<Json>) -> (headers: Option<Vec<(String, String)>>)
    ensures
        opt_headers(headers) == headers_of_list(json::items_view(items@)),
{
    let ghost all = json::items_view(items@);
    proof {
        json::lemma_items_view(items@);
    }
    let mut list: Vec<(String, String)> = Vec::new();
    let mut i: usize = 0;
    assert(all.take(0) =~= Seq::<JsonView>::empty());
    assert(headers_view(list@) =~= Seq::<(Seq<char>, Seq<char>)>::empty());
    while i < items.len()
        invariant
            i <= items.len(),
            all == json::items_view(items@),
            all.len() == items.len(),
            forall|k: int| 0 <= k < items.len() ==> all[k] == (#[trigger] items@[k])@,
            headers_of_list(all.take(i as int)) == Some(headers_view(list@)),
        decreases items.len() - i,
    {
        assert(all.take(i + 1).drop_last() =~= all.take(i as int));
        match read_header(&items[i]) {
            Some(h) => {
                let ghost before = headers_view(list@);
                list.push(h);
                assert(headers_view(list@) =~= before.push((h.0@, h.1@)));
            },
            None => {
                proof {
                    lemma_headers_fail(all, i as int);
                }
                return None;
            },
        }
        i += 1;
    }
    assert(all.take(i as int) =~= all);
    Some(list)
}

impl FetchRequest {
    /// The request that a document holds.
    pub fn from_json(v: &Json) -> (request: Option<FetchRequest>)
        ensures
            (match request {
                Some(r) => Some(r@),
                None => None,
            }) == request_of_json(v@),
    {
        let names: Vec<&'static str> = vec!["method", "url", "headers", "body"];
        assert(names@ =~= request_fields());
        let v = v.with_names(&names);
        let headers = match v.get("headers") {
            None => {
                let none: Vec<(String, String)> = Vec::new();
                assert(headers_view(none@) =~= Seq::<(Seq<char>, Seq<char>)>::empty());
                Some(none)
            },
            Some(Json::Array(items)) => read_headers(items),
            Some(_) => None,
        };
        let body = match v.get("body") {
            None => Some(None),
            Some(Json::Null) => Some(None),
            Some(Json::Text(t)) => Some(Some(t.clone())),
            Some(_) => None,
        };
        match (v.get_text("method"), v.get_text("url"), headers, body) {
            (Some(method), Some(url), Some(headers), Some(body)) => Some(
                FetchRequest { method, url, headers, body },
            ),
            _ => None,
        }
    }
}

impl FetchResponse {
    /// The document of the answer.
    pub fn to_json(&self) -> (v: Json)
        ensures
            v@ == response_json(self@),
    {
        let mut items: Vec<Json> = Vec::new();
        let mut i: usize = 0;
        let ghost all = headers_json(self@.headers)->Array_0;
        assert(all.take(0) =~= Seq::<JsonView>::empty());
        while i < self.headers.len()
            invariant
                i <= self.headers.len(),
                all == headers_json(self@.headers)->Array_0,
                all.len() == self.headers.len(),
                json::items_view(items@) == all.take(i as int),
            decreases self.headers.len() - i,
        {
            let ghost before = items@;
            let mut pair: Vec<Json> = Vec::new();
            pair.push(Json::of_text(self.headers[i].0.as_str()));
            pair.push(Json::of_text(self.headers[i].1.as_str()));
            proof {
                json::lemma_items_view(pair@);
                assert(json::items_view(pair@)[0] == pair@[0]@);
                assert(json::items_view(pair@)[1] == pair@[1]@);
                let h = self@.headers[i as int];
                assert(json::items_view(pair@) =~= seq![JsonView::Text(h.0), JsonView::Text(h.1)]);
            }
            let item = Json::Array(pair);
            assert(item@ == all[i as int]);
            items.push(item);
            assert(items@.drop_last() =~= before);
            assert(all.take(i + 1) =~= all.take(i as int).push(all[i as int]));
            i += 1;
        }
        assert(all.take(i as int) =~= all);
        Json::object().with("status", Json::of_natural(self.status as u64)).with(
            "headers",
            Json::Array(items),
        ).with("body", Json::of_text(self.body.as_str()))
    }
}

/// Why a request failed.
pub enum EgressError {
    Denied { app: String, host: String, port: u16 },
    Policy(String),
    BadUrl(String),
    TooLarge { max: usize },
    Upstream(String),
}

/// What a failure is.
#[verifier::ext_equal]
pub enum EgressErrorView {
    Denied { app: Seq<char>, host: Seq<char>, port: u16 },
    Policy(Seq<char>),
    BadUrl(Seq<char>),
    TooLarge { max: usize },
    Upstream(Seq<char>),
}

impl View for EgressError {
    type V = EgressErrorView;

    open spec fn view(&self) -> EgressErrorView {
        match self {
            EgressError::Denied { app, host, port } => EgressErrorView::Denied {
                app: app@,
                host: host@,
                port: *port,
            },
            EgressError::Policy(p) => EgressErrorView::Policy(p@),
            EgressError::BadUrl(u) => EgressErrorView::BadUrl(u@),
            EgressError::TooLarge { max } => EgressErrorView::TooLarge { max: *max },
            EgressError::Upstream(u) => EgressErrorView::Upstream(u@),
        }
    }
}

impl EgressErrorView {
    /// The failure in words.
    pub open spec fn message(self) -> Seq<char> {
        match self {
            EgressErrorView::Denied { app, host, port } => "egress denied for "@ + app + ": "@ + host
                + ":"@ + text::decimal(port as nat) + " not in allowlist"@,
            EgressErrorView::Policy(p) => "blocked by router policy: "@ + p,
            EgressErrorView::BadUrl(u) => "invalid request url: "@ + u,
            EgressErrorView::TooLarge { max } => "response exceeded max size of "@ + text::decimal(
                max as nat,
            ) + " bytes"@,
            EgressErrorView::Upstream(u) => "upstream error: "@ + u,
        }
    }
}

impl EgressError {
    /// The failure in words.
    pub fn message(&self) -> (words: String)
        ensures
            words@ == self@.message(),
    {
        match self {
            EgressError::Denied { app, host, port } => {
                let mut words = "egress denied for ".to_string();
                words.append(app.as_str());
                words.append(": ");
                words.append(host.as_str());
                words.append(":");
                words.append(text::decimal_text(*port as u64).as_str());
                words.append(" not in allowlist");
                words
            },
            EgressError::Policy(p) => "blocked by router policy: ".to_string().concat(p.as_str()),
            EgressError::BadUrl(u) => "invalid request url: ".to_string().concat(u.as_str()),
            EgressError::TooLarge { max } => {
                let mut words = "response exceeded max size of ".to_string();
                words.append(text::decimal_text(*max as u64).as_str());
                words.append(" bytes");
                words
            },
            EgressError::Upstream(u) => "upstream error: ".to_string().concat(u.as_str()),
        }
    }
}

// ---------------------------------------------------------------------------
// Addresses and methods
// ---------------------------------------------------------------------------

/// What the broker reads of an address: its host and its port, or the port that
/// its scheme stands for.
pub struct UrlParts {
    pub host: Option<String>,
    pub port: Option<u16>,
}

/// The host and port of an address, or why it is none.
pub uninterp spec fn address(url: Seq<char>) -> Result<
    (Option<Seq<char>>, Option<u16>),
    Seq<char>,
>;

/// What is wrong with a request method, if anything is.
pub uninterp spec fn method_fault(method: Seq<char>) -> Option<Seq<char>>;

/// The result with the host as characters.
pub open spec fn parts_view(parts: Result<UrlParts, String>) -> Result<
    (Option<Seq<char>>, Option<u16>),
    Seq<char>,
> {
    match parts {
        Ok(p) => Ok((text::opt_view(p.host), p.port)),
        Err(e) => Err(e@),
    }
}

/// `url::Url::parse`, then `Url::host_str` and `Url::port_or_known_default` of
/// what it gives: the host and port of the address, or the words of the error. The
/// text alone decides.
#[verifier::external_body]
pub(crate) fn read_url(url: &str) -> (parts: Result<UrlParts, String>)
    ensures
        parts_view(parts) == address(url@),
{
    match url::Url::parse(url) {
        Ok(u) => Ok(
            UrlParts { host: u.host_str().map(str::to_string), port: u.port_or_known_default() },
        ),
        Err(e) => Err(e.to_string()),
    }
}

/// `reqwest::Method::from_bytes`: the words of the error where the text is not a
/// request method, else nothing. The text alone decides.
#[verifier::external_body]
fn check_method(method: &str) -> (fault: Option<String>)
    ensures
        text::opt_view(fault) == method_fault(method@),
{
    reqwest::Method::from_bytes(method.as_bytes()).err().map(|e| e.to_string())
}

// ---------------------------------------------------------------------------
// The broker
// ---------------------------------------------------------------------------

/// What a broker is.
#[verifier::ext_equal]
pub struct BrokerView {
    /// The hosts of each application.
    pub allowlists: Map<Seq<char>, Seq<HostPortView>>,
    /// How much of an answer is read.
    pub max_body_bytes: usize,
}

impl BrokerView {
    /// Whether an application may reach a host. An application without a list may
    /// reach none.
    pub open spec fn allows(self, app: Seq<char>, host: Seq<char>, port: u16) -> bool {
        self.allowlists.dom().contains(app) && lets_pass(self.allowlists[app], host, port)
    }

    /// The refusal of a request, if it is refused: the address is unreadable or
    /// lacks host or port, the application may not reach the host, or the method is
    /// none. The first that applies is given.
    pub open spec fn refusal(self, app: Seq<char>, url: Seq<char>, method: Seq<char>) -> Option<
        EgressErrorView,
    > {
        match address(url) {
            Err(e) => Some(EgressErrorView::BadUrl(e)),
            Ok((None, port)) => Some(EgressErrorView::BadUrl("missing host"@)),
            Ok((Some(host), None)) => Some(EgressErrorView::BadUrl("unknown scheme/port"@)),
            Ok((Some(host), Some(port))) => if !self.allows(app, host, port) {
                Some(EgressErrorView::Denied { app, host, port })
            } else {
                match method_fault(method) {
                    Some(e) => Some(EgressErrorView::BadUrl("bad method: "@ + e)),
                    None => None,
                }
            },
        }
    }
}

/// The broker.
pub struct EgressBroker {
    allowlists: SortedMap<HostList>,
    max_body_bytes: usize,
}

impl View for EgressBroker {
    type V = BrokerView;

    closed spec fn view(&self) -> BrokerView {
        BrokerView {
            allowlists: sorted_map::as_map(sorted_map::deep(self.allowlists@)),
            max_body_bytes: self.max_body_bytes,
        }
    }
}

/// A request that may be sent.
pub struct Outgoing {
    pub app: String,
    pub request: FetchRequest,
    pub host: String,
    pub port: u16,
}

impl Default for EgressBroker {
    fn default() -> (broker: Self)
        ensures
            broker@ == (BrokerView {
                allowlists: Map::empty(),
                max_body_bytes: DEFAULT_MAX_BODY,
            }),
    {
        EgressBroker::new()
    }
}

impl EgressBroker {
    /// The broker that lets nothing pass.
    pub fn new() -> (broker: Self)
        ensures
            broker@ == (BrokerView {
                allowlists: Map::empty(),
                max_body_bytes: DEFAULT_MAX_BODY,
            }),
    {
        let broker = EgressBroker {
            allowlists: SortedMap::new(),
            max_body_bytes: DEFAULT_MAX_BODY,
        };
        assert(broker@.allowlists =~= Map::<Seq<char>, Seq<HostPortView>>::empty());
        broker
    }

    /// The broker with another bound on answers.
    pub fn with_max_body_bytes(self, max: usize) -> (broker: Self)
        ensures
            broker@ == (BrokerView { max_body_bytes: max, ..self@ }),
    {
        EgressBroker { allowlists: self.allowlists, max_body_bytes: max }
    }

    /// Sets the hosts of an application.
    pub fn allow(&mut self, app_id: &str, hosts: Vec<HostPort>)
        ensures
            final(self)@ == (BrokerView {
                allowlists: old(self)@.allowlists.insert(
                    app_id@,
                    Seq::new(hosts@.len(), |i: int| hosts@[i]@),
                ),
                ..old(self)@
            }),
    {
        let list = HostList { hosts };
        let ghost before = self.allowlists@;
        self.allowlists.insert(app_id, list);
        proof {
            sorted_map::lemma_deep_put(before, app_id@, list);
            sorted_map::lemma_deep_map(before);
            sorted_map::lemma_put(sorted_map::deep(before), app_id@, list@);
        }
    }

    /// Whether an application may reach a host; if not, the refusal.
    pub fn check(&self, app_id: &str, host: &str, port: u16) -> (result: Result<(), EgressError>)
        ensures
            match result {
                Ok(()) => self@.allows(app_id@, host@, port),
                Err(e) => !self@.allows(app_id@, host@, port) && e@ == (EgressErrorView::Denied {
                    app: app_id@,
                    host: host@,
                    port,
                }),
            },
    {
        proof {
            sorted_map::lemma_deep_map(self.allowlists@);
        }
        if let Some(list) = self.allowlists.get(app_id) {
            let ghost all = list@;
            let mut i: usize = 0;
            while i < list.hosts.len()
                invariant
                    i <= list.hosts.len(),
                    all == list@,
                    self@.allowlists.dom().contains(app_id@),
                    self@.allowlists[app_id@] == all,
                    forall|k: int|
                        0 <= k < i ==> !((#[trigger] all[k]).host == "*"@ || (all[k].host == host@
                            && all[k].port == port)),
                decreases list.hosts.len() - i,
            {
                let entry = &list.hosts[i];
                assert(all[i as int] == entry@);
                if text::same_text(entry.host.as_str(), "*") || (text::same_text(
                    entry.host.as_str(),
                    host,
                ) && entry.port == port) {
                    return Ok(());
                }
                i += 1;
            }
        }
        Err(EgressError::Denied { app: app_id.to_string(), host: host.to_string(), port })
    }

    /// Lets a request of an application pass, or refuses it.
    pub fn vet(&self, app_id: &str, req: FetchRequest) -> (result: Result<
        Outgoing,
        EgressError,
    >)
        ensures
            match result {
                Ok(out) => {
                    &&& self@.refusal(app_id@, req.url@, req.method@) is None
                    &&& out.app@ == app_id@
                    &&& out.request@ == req@
                    &&& address(req.url@) == Ok::<_, Seq<char>>((Some(out.host@), Some(out.port)))
                },
                Err(e) => self@.refusal(app_id@, req.url@, req.method@) == Some(e@),
            },
    {
        let parts = match read_url(req.url.as_str()) {
            Ok(parts) => parts,
            Err(e) => {
                return Err(EgressError::BadUrl(e));
            },
        };
        let host = match parts.host {
            Some(host) => host,
            None => {
                return Err(EgressError::BadUrl("missing host".to_string()));
            },
        };
        let port: u16 = match parts.port {
            Some(port) => port,
            None => {
                return Err(EgressError::BadUrl("unknown scheme/port".to_string()));
            },
        };
        if let Err(e) = self.check(app_id, host.as_str(), port) {
            return Err(e);
        }
        if let Some(e) = check_method(req.method.as_str()) {
            return Err(EgressError::BadUrl("bad method: ".to_string().concat(e.as_str())));
        }
        Ok(
            Outgoing { app: app_id.to_string(), request: req, host, port },
        )
    }

    /// An empty answer with the bound of this broker.
    pub fn incoming(&self) -> (incoming: Incoming)
        ensures
            incoming@ == Seq::<u8>::empty(),
            incoming.max() == self@.max_body_bytes,
    {
        Incoming { bytes: Vec::new(), max: self.max_body_bytes }
    }
}

impl Outgoing {
    /// The request as it is sent: the headers of the application, then the
    /// credentials for the host.
    pub fn with_credentials(&self, credentials: Vec<(String, String)>) -> (out: FetchRequest)
        ensures
            out@ == (FetchRequestView {
                headers: self.request@.headers + headers_view(credentials@),
                ..self.request@
            }),
    {
        let mut credentials = credentials;
        let ghost added = credentials@;
        let mut headers = copy_headers(&self.request.headers);
        let ghost own = headers@;
        headers.append(&mut credentials);
        assert(headers_view(headers@) =~= headers_view(own) + headers_view(added));
        FetchRequest {
            method: self.request.method.clone(),
            url: self.request.url.clone(),
            headers,
            body: text::copy_opt(&self.request.body),
        }
    }
}

/// An answer while it is read, which never grows beyond its bound.
pub struct Incoming {
    bytes: Vec<u8>,
    max: usize,
}

impl View for Incoming {
    type V = Seq<u8>;

    closed spec fn view(&self) -> Seq<u8> {
        self.bytes@
    }
}

impl Incoming {
    /// The bound.
    pub closed spec fn max(&self) -> usize {
        self.max
    }

    /// Takes a piece of the answer in, unless the answer would be too large.
    pub fn push(&mut self, chunk: &Vec<u8>) -> (result: Result<(), EgressError>)
        ensures
            final(self).max() == old(self).max(),
            match result {
                Ok(()) => old(self)@.len() + chunk@.len() <= old(self).max() && final(self)@
                    == old(self)@ + chunk@,
                Err(e) => old(self)@.len() + chunk@.len() > old(self).max() && final(self)@
                    == old(self)@ && e@ == (EgressErrorView::TooLarge { max: old(self).max() }),
            },
    {
        if self.bytes.len() > self.max || chunk.len() > self.max - self.bytes.len() {
            return Err(EgressError::TooLarge { max: self.max });
        }
        let mut i: usize = 0;
        let ghost before = self.bytes@;
        while i < chunk.len()
            invariant
                i <= chunk.len(),
                self.max() == old(self).max(),
                self.bytes@ == before + chunk@.take(i as int),
            decreases chunk.len() - i,
        {
            self.bytes.push(chunk[i]);
            i += 1;
            assert(self.bytes@ =~= before + chunk@.take(i as int));
        }
        assert(chunk@.take(i as int) =~= chunk@);
        Ok(())
    }

    /// The answer for the application, and the audit record.
    pub fn conclude(
        self,
        out: &Outgoing,
        status: u16,
        headers: &Vec<(String, String)>,
        now_ms: u64,
    ) -> (result: (FetchResponse, EgressAudit))
        ensures
            result.0@ == (FetchResponseView {
                status,
                headers: headers_view(headers@),
                body: text::lossy(self@),
            }),
            result.1.app@ == out.app@,
            result.1.method@ == out.request.method@,
            result.1.host@ == out.host@,
            result.1.port == out.port,
            result.1.status == status,
            result.1.bytes == self@.len(),
            result.1.ts_ms == now_ms,
    {
        let response = FetchResponse {
            status,
            headers: copy_headers(headers),
            body: text::lossy_text(&self.bytes),
        };
        let audit = EgressAudit {
            app: out.app.clone(),
            method: out.request.method.clone(),
            host: out.host.clone(),
            port: out.port,
            status,
            bytes: self.bytes.len(),
            ts_ms: now_ms,
        };
        (response, audit)
    }
}

// ---------------------------------------------------------------------------
// What the broker promises
// ---------------------------------------------------------------------------

/// Nothing passes by default: a broker that was told nothing refuses every request,
/// and an application that has no list is refused whatever other applications have.
pub proof fn lemma_deny_by_default(
    b: BrokerView,
    app: Seq<char>,
    other: Seq<char>,
    hosts: Seq<HostPortView>,
    host: Seq<char>,
    port: u16,
)
    requires
        !b.allowlists.dom().contains(app),
        app != other,
    ensures
        !b.allows(app, host, port),
        !(BrokerView { allowlists: b.allowlists.insert(other, hosts), ..b }).allows(app, host, port),
{
}

/// A request that is not refused goes to a host that its application declared, or
/// comes from an application that declared any host.
pub proof fn lemma_passed_is_declared(
    b: BrokerView,
    app: Seq<char>,
    url: Seq<char>,
    method: Seq<char>,
)
    requires
        b.refusal(app, url, method) is None,
    ensures
        address(url) matches Ok((Some(host), Some(port))) && b.allowlists.dom().contains(app)
            && lets_pass(b.allowlists[app], host, port),
{
}

proof fn lemma_headers_come_back(headers: Seq<(Seq<char>, Seq<char>)>)
    ensures
        headers_of_list(
            Seq::new(
                headers.len(),
                |i: int|
                    JsonView::Array(
                        seq![JsonView::Text(headers[i].0), JsonView::Text(headers[i].1)],
                    ),
            ),
        ) == Some(headers),
    decreases headers.len(),
{
    let items = Seq::new(
        headers.len(),
        |i: int|
            JsonView::Array(seq![JsonView::Text(headers[i].0), JsonView::Text(headers[i].1)]),
    );
    if headers.len() == 0 {
        assert(headers =~= Seq::empty());
    } else {
        let rest = headers.drop_last();
        lemma_headers_come_back(rest);
        assert(items.drop_last() =~= Seq::new(
            rest.len(),
            |i: int| JsonView::Array(seq![JsonView::Text(rest[i].0), JsonView::Text(rest[i].1)]),
        ));
        assert(header_of_json(items.last()) == Some(headers.last()));
        assert(rest.push(headers.last()) =~= headers);
    }
}

/// A request is read as it was written: for every method, address, list of headers and body,
/// or none, the object of these members is read as the request with exactly them, and so is
/// the list of them. Headers or a body that are left out are none.
pub proof fn lemma_request_comes_back(
    method: Seq<char>,
    url: Seq<char>,
    headers: Seq<(Seq<char>, Seq<char>)>,
    body: Option<Seq<char>>,
)
    ensures
        ({
            let list = JsonView::Array(
                Seq::new(
                    headers.len(),
                    |i: int|
                        JsonView::Array(
                            seq![JsonView::Text(headers[i].0), JsonView::Text(headers[i].1)],
                        ),
                ),
            );
            let content = match body {
                Some(t) => JsonView::Text(t),
                None => JsonView::Null,
            };
            let m = Map::<Seq<char>, JsonView>::empty().insert(
                "method"@,
                JsonView::Text(method),
            ).insert("url"@, JsonView::Text(url));
            let r = FetchRequestView { method, url, headers, body };
            let plain = FetchRequestView { method, url, headers: Seq::empty(), body: None };
            &&& request_of_json(
                JsonView::Object(m.insert("headers"@, list).insert("body"@, content)),
            ) == Some(r)
            &&& request_of_json(
                JsonView::Array(
                    seq![JsonView::Text(method), JsonView::Text(url), list, content],
                ),
            ) == Some(r)
            &&& request_of_json(JsonView::Object(m.insert("headers"@, list))) == Some(
                FetchRequestView { body: None, ..r },
            )
            &&& request_of_json(JsonView::Object(m.insert("body"@, content))) == Some(
                FetchRequestView { headers: Seq::empty(), ..r },
            )
            &&& request_of_json(JsonView::Object(m)) == Some(plain)
            &&& request_of_json(JsonView::Object(m.remove("method"@))) is None
            &&& request_of_json(JsonView::Object(m.remove("url"@))) is None
        }),
{
    reveal_strlit("method");
    reveal_strlit("url");
    reveal_strlit("headers");
    reveal_strlit("body");
    assert("method"@.len() == 6 && "url"@.len() == 3 && "headers"@.len() == 7 && "body"@.len()
        == 4);
    lemma_headers_come_back(headers);
    let list = JsonView::Array(
        Seq::new(
            headers.len(),
            |i: int|
                JsonView::Array(seq![JsonView::Text(headers[i].0), JsonView::Text(headers[i].1)]),
        ),
    );
    let content = match body {
        Some(t) => JsonView::Text(t),
        None => JsonView::Null,
    };
    let items = seq![JsonView::Text(method), JsonView::Text(url), list, content];
    let names = request_fields();
    reveal_with_fuel(json::placed, 5);
    assert(items.drop_last() =~= seq![JsonView::Text(method), JsonView::Text(url), list]);
    assert(items.drop_last().drop_last() =~= seq![JsonView::Text(method), JsonView::Text(url)]);
    assert(items.drop_last().drop_last().drop_last() =~= seq![JsonView::Text(method)]);
    assert(items.drop_last().drop_last().drop_last().drop_last() =~= Seq::<JsonView>::empty());
}

/// The document of an answer has its status, its headers pair by pair and its body, and no
/// other member.
pub proof fn lemma_answer_is_written(r: FetchResponseView)
    ensures
        response_json(r) matches JsonView::Object(m) && {
            &&& m.dom() == set!["status"@, "headers"@, "body"@]
            &&& m["status"@] == JsonView::Number(JsonNumberView::Natural(r.status as u64))
            &&& m["body"@] == JsonView::Text(r.body)
            &&& m["headers"@] matches JsonView::Array(items) && items.len() == r.headers.len()
                && forall|i: int|
                #![trigger r.headers[i]]
                0 <= i < r.headers.len() ==> items[i] == JsonView::Array(
                    seq![JsonView::Text(r.headers[i].0), JsonView::Text(r.headers[i].1)],
                )
        },
{
    reveal_strlit("status");
    reveal_strlit("headers");
    reveal_strlit("body");
    assert("status"@.len() == 6 && "headers"@.len() == 7 && "body"@.len() == 4);
    let m = response_json(r)->Object_0;
    assert(m.dom() =~= set!["status"@, "headers"@, "body"@]);
}

/// A request passes exactly where its address has a host and a port, the application has
/// that host with that port, or any host, on its list, and the method is one. Else the first
/// of these that fails is told: the address, then the host, then the method.
pub proof fn lemma_what_passes(
    b: BrokerView,
    app: Seq<char>,
    url: Seq<char>,
    method: Seq<char>,
)
    ensures
        match (address(url), b.refusal(app, url, method)) {
            (Ok((Some(host), Some(port))), refused) => {
                let on_list = b.allowlists.dom().contains(app) && exists|i: int|
                    {
                        let list = b.allowlists[app];
                        &&& 0 <= i < list.len()
                        &&& (#[trigger] b.allowlists[app][i]).host == seq!['*'] || (list[i].host
                            == host && list[i].port == port)
                    };
                &&& refused is None <==> on_list && method_fault(method) is None
                &&& !on_list ==> refused == Some(EgressErrorView::Denied { app, host, port })
                &&& on_list && method_fault(method) is Some ==> refused == Some(
                    EgressErrorView::BadUrl("bad method: "@ + method_fault(method)->0),
                )
            },
            (Ok((None, _)), refused) => refused == Some(
                EgressErrorView::BadUrl("missing host"@),
            ),
            (Ok((Some(_), None)), refused) => refused == Some(
                EgressErrorView::BadUrl("unknown scheme/port"@),
            ),
            (Err(e), refused) => refused == Some(EgressErrorView::BadUrl(e)),
        },
{
    reveal_strlit("*");
    assert("*"@ =~= seq!['*']);
    if let Ok((Some(host), Some(port))) = address(url) {
        if b.allowlists.dom().contains(app) {
            let list = b.allowlists[app];
            if lets_pass(list, host, port) {
                let i = choose|i: int|
                    0 <= i < list.len() && ((#[trigger] list[i]).host == "*"@ || (list[i].host
                        == host && list[i].port == port));
                assert(b.allowlists[app][i].host == list[i].host);
            }
        }
    }
}

/// What a refusal tells.
pub proof fn lemma_refusals_in_words(app: Seq<char>, host: Seq<char>, port: u16, max: usize)
    ensures
        (EgressErrorView::Denied { app, host, port }).message() == "egress denied for "@ + app
            + ": "@ + host + ":"@ + text::decimal(port as nat) + " not in allowlist"@,
        (EgressErrorView::TooLarge { max }).message() == "response exceeded max size of "@
            + text::decimal(max as nat) + " bytes"@,
        (EgressErrorView::Policy(app)).message() == "blocked by router policy: "@ + app,
        (EgressErrorView::BadUrl(app)).message() == "invalid request url: "@ + app,
        (EgressErrorView::Upstream(app)).message() == "upstream error: "@ + app,
{
}

/// An application may reach the hosts that it was given, on their ports, and what other
/// applications may reach stays what it was.
pub proof fn lemma_allowed_is_reached(
    broker: &mut EgressBroker,
    app: &str,
    other: &str,
    hosts: Vec<HostPort>,
    at: int,
    host: &str,
    port: u16,
    listed: Result<(), EgressError>,
    before: Result<(), EgressError>,
    after: Result<(), EgressError>,
)
    requires
        app@ != other@,
        0 <= at < hosts@.len(),
        hosts@[at].host@ == host@,
        hosts@[at].port == port,
        call_ensures(EgressBroker::check, (&*broker, other, host, port), before),
        call_ensures(EgressBroker::allow, (broker, app, hosts), ()),
        call_ensures(EgressBroker::check, (final(broker), app, host, port), listed),
        call_ensures(EgressBroker::check, (final(broker), other, host, port), after),
    ensures
        listed is Ok,
        after is Ok <==> before is Ok,
{
    let list = final(broker)@.allowlists[app@];
    assert(list[at].host == host@ && list[at].port == port);
}

/// A new broker lets nothing pass, and takes answers of eight mebibytes at most.
pub proof fn lemma_nothing_passes(
    broker: EgressBroker,
    app: &str,
    host: &str,
    port: u16,
    result: Result<(), EgressError>,
)
    requires
        call_ensures(EgressBroker::new, (), broker),
        call_ensures(EgressBroker::check, (&broker, app, host, port), result),
    ensures
        result matches Err(e) && e@ == (EgressErrorView::Denied { app: app@, host: host@, port }),
        broker@.max_body_bytes == 8 * 1024 * 1024,
{
}

/// A request that passes is sent as it came, with the credentials behind its own headers and
/// nothing else changed.
pub proof fn lemma_sent_with_credentials(
    broker: EgressBroker,
    app: &str,
    req: FetchRequest,
    out: Outgoing,
    credentials: Vec<(String, String)>,
    sent: FetchRequest,
)
    requires
        call_ensures(EgressBroker::vet, (&broker, app, req), Ok::<Outgoing, EgressError>(out)),
        call_ensures(Outgoing::with_credentials, (&out, credentials), sent),
    ensures
        out.app@ == app@,
        sent@.method == req@.method,
        sent@.url == req@.url,
        sent@.body == req@.body,
        sent@.headers == req@.headers + headers_view(credentials@),
{
}

/// An answer is taken in piece by piece, each behind the one before, as far as the bound of the
/// broker; a piece that is too much is refused and leaves what is there. What was taken in is
/// given out with its status and its headers, and what is logged of it is what happened.
pub proof fn lemma_answer_is_taken_in(
    broker: EgressBroker,
    first: Incoming,
    incoming: &mut Incoming,
    chunk: Vec<u8>,
    result: Result<(), EgressError>,
    out: Outgoing,
    status: u16,
    headers: Vec<(String, String)>,
    now_ms: u64,
    end: (FetchResponse, EgressAudit),
)
    requires
        call_ensures(EgressBroker::incoming, (&broker,), first),
        *incoming == first,
        call_ensures(Incoming::push, (incoming, &chunk), result),
        call_ensures(Incoming::conclude, (*final(incoming), &out, status, &headers, now_ms), end),
    ensures
        result is Ok <==> chunk@.len() <= broker@.max_body_bytes,
        result is Ok ==> end.0@.body == text::lossy(chunk@) && end.1.bytes == chunk@.len(),
        result matches Err(e) ==> e@ == (EgressErrorView::TooLarge { max: broker@.max_body_bytes })
            && end.1.bytes == 0,
        end.0@.status == status,
        end.0@.headers == headers_view(headers@),
        end.1.app@ == out.app@,
        end.1.method@ == out.request.method@,
        end.1.host@ == out.host@,
        end.1.port == out.port,
        end.1.status == status,
        end.1.ts_ms == now_ms,
{
    assert(Seq::<u8>::empty() + chunk@ =~= chunk@);
}

/// What is read of a document is the request that is in it, the body too.
pub proof fn lemma_body_is_read(
    v: Json,
    m: Map<Seq<char>, JsonView>,
    body: Seq<char>,
    request: Option<FetchRequest>,
)
    requires
        v@ == JsonView::Object(m),
        call_ensures(FetchRequest::from_json, (&v,), request),
        m.dom().contains("body"@),
        m["body"@] == JsonView::Text(body),
    ensures
        request matches Some(r) ==> (r.body matches Some(b) && b@ == body),
        request matches Some(r) ==> m.dom().contains("url"@) && m["url"@] == JsonView::Text(r.url@)
            && m.dom().contains("method"@) && m["method"@] == JsonView::Text(r.method@),
{
}

/// A document without a method or an address is no request, nor is one whose body is neither a
/// text nor null, or whose headers are no list of pairs of texts. One that leaves its headers
/// or its body out has none.
pub proof fn lemma_what_is_no_request(m: Map<Seq<char>, JsonView>, i: int)
    ensures
        ({
            let r = request_of_json(JsonView::Object(m));
            &&& !m.dom().contains("method"@) || !(m["method"@] is Text) ==> r is None
            &&& !m.dom().contains("url"@) || !(m["url"@] is Text) ==> r is None
            &&& m.dom().contains("body"@) && !(m["body"@] is Text) && !(m["body"@] is Null)
                ==> r is None
            &&& m.dom().contains("headers"@) && !(m["headers"@] is Array) ==> r is None
            &&& m.dom().contains("headers"@) && (m["headers"@] matches JsonView::Array(items) && 0
                <= i < items.len() && !(items[i] matches JsonView::Array(pair) && pair.len() == 2
                && pair[0] is Text && pair[1] is Text)) ==> r is None
            &&& !m.dom().contains("body"@) ==> (r matches Some(q) ==> q.body is None)
            &&& !m.dom().contains("headers"@) ==> (r matches Some(q) ==> q.headers.len() == 0)
        }),
{
    if m.dom().contains("headers"@) {
        if let JsonView::Array(items) = m["headers"@] {
            if 0 <= i < items.len() && header_of_json(items[i]) is None {
                lemma_headers_fail(items, i);
            }
        }
    }
}

} // verus!
