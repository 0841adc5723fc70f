//! What the fleet is told, and what a node makes of its answers.

use vstd::prelude::*;
use crate::agent::context::Context;
use crate::agent::error::Error;
use crate::agent::error::ErrorView;
use crate::fleet::auth;
use crate::fleet::auth::AuthError;
use crate::fleet::auth::AuthErrorView;
use crate::fleet::auth::DeviceCode;
use crate::fleet::auth::DeviceFlow;
use crate::fleet::auth::PollOutcome;
use crate::fleet::auth::PollView;
use crate::fleet::auth::TokenStore;
use crate::fleet::client;
use crate::fleet::client::FleetClient;
use crate::fleet::client::NodeView;
use crate::fleet::client::PendingItem;
use crate::fleet::client::PendingView;
use crate::fleet::migration;
use crate::fleet::migration::MigrationReceiver;
use crate::fleet::migration::MigrationSender;
use crate::fleet::migration::ReceiveAction;
use crate::fleet::migration::ReceiveActionView;
use crate::fleet::migration::ReceivePhase;
use crate::fleet::migration::SendAction;
use crate::fleet::migration::SendActionView;
use crate::fleet::migration::SendEvent;
use crate::fleet::migration::SendPhase;
use crate::fleet::sync;
use crate::fleet::sync::DeviceInbound;
use crate::fleet::sync::InboundView;
use crate::fleet::sync::PatchView;
use crate::json::Json;
use crate::json::JsonNumberView;
use crate::json::JsonView;
use crate::orchestrator::session::AgentSession;
use crate::orchestrator::session::PhaseView;
use crate::orchestrator::session::SessionView;
use crate::text;
use crate::text_laws;

verus! {

// ---------------------------------------------------------------------------
// Enrolling
// ---------------------------------------------------------------------------

/// A token in an answer authorizes, whatever else is in it. Without one, an answer that says
/// that approval is pending or that asks to slow down leaves it pending, a refusal and an
/// expiry are told as such, and any other error in its words.
pub proof fn lemma_poll(
    answer: Json,
    m: Map<Seq<char>, JsonView>,
    t: Seq<char>,
    outcome: Result<PollOutcome, AuthError>,
)
    requires
        answer@ == JsonView::Object(m),
        call_ensures(auth::poll_answer, (&answer,), outcome),
    ensures
        m.contains_pair("access_token"@, JsonView::Text(t)) ==> (outcome matches Ok(o) && o@ == (
        PollView::Authorized { access_token: t })),
        !m.dom().contains("access_token"@) && (m.contains_pair(
            "error"@,
            JsonView::Text("authorization_pending"@),
        ) || m.contains_pair("error"@, JsonView::Text("slow_down"@))) ==> (outcome matches Ok(o)
            && o@ == PollView::Pending),
        !m.dom().contains("access_token"@) && m.contains_pair(
            "error"@,
            JsonView::Text("access_denied"@),
        ) ==> (outcome matches Err(e) && e@ == AuthErrorView::AccessDenied),
        !m.dom().contains("access_token"@) && m.contains_pair(
            "error"@,
            JsonView::Text("expired_token"@),
        ) ==> (outcome matches Err(e) && e@ == AuthErrorView::ExpiredToken),
        !m.dom().contains("access_token"@) && m.contains_pair("error"@, JsonView::Text(t)) && t
            != "authorization_pending"@ && t != "slow_down"@ && t != "access_denied"@ && t
            != "expired_token"@ ==> (outcome matches Err(e) && e@ == AuthErrorView::Server(t)),
        !m.dom().contains("access_token"@) && !m.dom().contains("error"@) ==> outcome is Err,
{
    reveal_strlit("authorization_pending");
    reveal_strlit("slow_down");
    reveal_strlit("access_denied");
    reveal_strlit("expired_token");
    assert("authorization_pending"@.len() == 21 && "slow_down"@.len() == 9
        && "access_denied"@.len() == 13 && "expired_token"@.len() == 13);
    assert("access_denied"@[0] != "expired_token"@[0]);
}

/// Where a node enrols, what it sends there, and how long it waits between two questions: as
/// long as it is told, and a second at least.
pub proof fn lemma_enrolling(
    flow: DeviceFlow,
    auth_url: &str,
    start: String,
    token: String,
    label: Option<&str>,
    body: Json,
    code: DeviceCode,
    device_code: &str,
    asked: Json,
    seconds: u64,
)
    requires
        call_ensures(DeviceFlow::new, (auth_url,), flow),
        call_ensures(DeviceFlow::start_url, (&flow,), start),
        call_ensures(DeviceFlow::token_url, (&flow,), token),
        call_ensures(DeviceFlow::start_body, (label,), body),
        call_ensures(DeviceFlow::token_body, (device_code,), asked),
        call_ensures(DeviceFlow::interval, (&code,), seconds),
    ensures
        start@ == auth_url@ + "/api/device/authorize"@,
        token@ == auth_url@ + "/api/device/token"@,
        label matches Some(l) ==> body@ == JsonView::Object(
            Map::empty().insert("node_label"@, JsonView::Text(l@)),
        ),
        label is None ==> body@ == JsonView::Object(Map::empty()),
        asked@ == JsonView::Object(
            Map::empty().insert("device_code"@, JsonView::Text(device_code@)),
        ),
        seconds >= 1,
        code.interval >= 1 ==> seconds == code.interval,
{
}

/// The token is what the file holds without white space around it, where that is anything.
pub proof fn lemma_token(raw: Option<&str>, token: Option<String>)
    requires
        call_ensures(TokenStore::token_in, (raw,), token),
    ensures
        raw is None ==> token is None,
        raw matches Some(r) ==> (token is Some <==> text::trimmed(r@).len() > 0),
        raw matches Some(r) ==> (token matches Some(t) ==> t@ == text::trimmed(r@)),
{
}

// ---------------------------------------------------------------------------
// What a node tells
// ---------------------------------------------------------------------------

/// Where a node registers, migrates and completes, under its own id and that of the session.
pub proof fn lemma_paths(
    node: FleetClient,
    session_id: &str,
    path: &str,
    url: String,
    register: String,
    migrate: String,
    migrations: String,
    complete: String,
    pending: String,
)
    requires
        call_ensures(FleetClient::url, (&node, path), url),
        call_ensures(FleetClient::register_path, (&node,), register),
        call_ensures(FleetClient::migrate_path, (session_id,), migrate),
        call_ensures(FleetClient::migrations_path, (&node,), migrations),
        call_ensures(FleetClient::complete_path, (session_id,), complete),
        call_ensures(FleetClient::pending_path, (&node, session_id), pending),
    ensures
        url@ == node.base_url@ + path@,
        register@ == "/v1/fleet/nodes/"@ + node.node_id@ + "/register"@,
        migrate@ == "/v1/fleet/sessions/"@ + session_id@ + "/migrate"@,
        migrations@ == "/v1/fleet/nodes/"@ + node.node_id@ + "/migrations"@,
        complete@ == "/v1/fleet/sessions/"@ + session_id@ + "/migrate/complete"@,
        pending@ == "/v1/fleet/nodes/"@ + node.node_id@ + "/migrations/"@ + session_id@,
{
}

/// A node registers with what it is and which version it runs, and with its name where it has
/// one.
pub proof fn lemma_registration(node: FleetClient, body: Json)
    requires
        call_ensures(FleetClient::register_body, (&node,), body),
    ensures
        body@ matches JsonView::Object(m) && {
            &&& m.contains_pair("flavor"@, JsonView::Text(node.flavor@))
            &&& m.contains_pair("os_version"@, JsonView::Text(node.os_version@))
            &&& node.name matches Some(name) ==> m.contains_pair("name"@, JsonView::Text(name@))
            &&& node.name is None ==> !m.dom().contains("name"@)
            &&& forall|k: Seq<char>| #[trigger]
                m.dom().contains(k) ==> k == "flavor"@ || k == "os_version"@ || k == "name"@
        },
{
    reveal_strlit("flavor");
    reveal_strlit("os_version");
    reveal_strlit("name");
    assert("flavor"@.len() == 6 && "os_version"@.len() == 10 && "name"@.len() == 4);
}

/// A migration carries the bundle and the node that it goes to, and its completion the node
/// that took it.
pub proof fn lemma_migration_bodies(
    bundle: Json,
    target: &str,
    body: Json,
    new_node: &str,
    done: Json,
)
    requires
        call_ensures(FleetClient::migrate_body, (bundle, target), body),
        call_ensures(FleetClient::complete_body, (new_node,), done),
    ensures
        body@ matches JsonView::Object(m) && m.dom() == set!["bundle"@, "target_node_id"@]
            && m["bundle"@] == bundle@ && m["target_node_id"@] == JsonView::Text(target@),
        done@ == JsonView::Object(
            Map::empty().insert("new_node_id"@, JsonView::Text(new_node@)),
        ),
{
    reveal_strlit("bundle");
    reveal_strlit("target_node_id");
    assert("bundle"@.len() == 6 && "target_node_id"@.len() == 14);
    assert(body@->Object_0.dom() =~= set!["bundle"@, "target_node_id"@]);
}

/// A new node has the given address and id, is a desktop, and has neither token nor name. A
/// token and an identity that are given later replace what they are for and nothing else.
pub proof fn lemma_nodes(
    base_url: &str,
    node_id: &str,
    node: FleetClient,
    token: &str,
    with_token: FleetClient,
    flavor: &str,
    version: &str,
    name: Option<String>,
    with_identity: FleetClient,
)
    requires
        call_ensures(FleetClient::new, (base_url, node_id), node),
        call_ensures(FleetClient::with_token, (node, token), with_token),
        call_ensures(FleetClient::with_identity, (node, flavor, version, name), with_identity),
    ensures
        node.base_url@ == base_url@,
        node.node_id@ == node_id@,
        node.token is None && node.name is None,
        node.flavor@ == "desktop"@ && node.os_version@ == "0.1.0"@,
        with_token@ == (NodeView { token: Some(token@), ..node@ }),
        with_identity@ == (NodeView {
            flavor: flavor@,
            os_version: version@,
            name: text::opt_view(name),
            ..node@
        }),
{
}

/// The sessions that wait for a node are read one by one, each with its id and its bundle, by
/// name or by place. Where one cannot be read none is.
pub proof fn lemma_pending_is_read(before: Seq<JsonView>, id: Seq<char>, bundle: JsonView)
    ensures
        client::pending_of_list(Seq::empty()) == Some(Seq::<PendingView>::empty()),
        client::pending_of_json(
            JsonView::Object(
                Map::empty().insert("session_id"@, JsonView::Text(id)).insert("bundle"@, bundle),
            ),
        ) == Some(PendingView { session_id: id, bundle }),
        client::pending_of_json(JsonView::Array(seq![JsonView::Text(id), bundle])) == Some(
            PendingView { session_id: id, bundle },
        ),
        ({
            let item = JsonView::Array(seq![JsonView::Text(id), bundle]);
            client::pending_of_list(before.push(item)) == (match client::pending_of_list(before) {
                Some(list) => Some(list.push(PendingView { session_id: id, bundle })),
                None => None,
            })
        }),
        client::pending_of_list(before.push(JsonView::Null)) is None,
{
    reveal_strlit("session_id");
    reveal_strlit("bundle");
    assert("session_id"@.len() == 10 && "bundle"@.len() == 6);
    reveal_with_fuel(crate::json::placed, 3);
    let items = seq![JsonView::Text(id), bundle];
    assert(items.drop_last() =~= seq![JsonView::Text(id)]);
    assert(items.drop_last().drop_last() =~= Seq::<JsonView>::empty());
    assert(before.push(JsonView::Array(items)).drop_last() =~= before);
    assert(before.push(JsonView::Null).drop_last() =~= before);
}

// ---------------------------------------------------------------------------
// Moving a session
// ---------------------------------------------------------------------------

/// A session that moves is frozen first, then bundled, pushed and relayed, each once the step
/// before it is done. When it was relayed it is on its way to its target. An error stops it.
pub proof fn lemma_sending(
    sender: &mut MigrationSender,
    session: &mut AgentSession,
    ctx: Context,
    event: SendEvent,
    action: SendAction,
)
    requires
        call_ensures(MigrationSender::step, (sender, session, &ctx, event), action),
    ensures
        final(sender).target_node@ == old(sender).target_node@,
        event matches SendEvent::Failed(e) ==> action@ == SendActionView::Stop(e@)
            && final(sender).phase == SendPhase::Failed && final(session)@ == old(session)@,
        old(sender).phase == SendPhase::Freezing && event is Frozen && old(session)@.phase is Frozen
            ==> final(sender).phase == SendPhase::Bundling && action@
            == SendActionView::MakeBundle(old(session)@.frozen_state(ctx@)) && final(session)@
            == old(session)@,
        old(sender).phase == SendPhase::Freezing && event is Frozen && !(
        old(session)@.phase is Frozen) ==> final(sender).phase == SendPhase::Failed
            && action@ is Stop,
        old(sender).phase == SendPhase::Freezing && event is FreezeDropped ==> final(sender).phase
            == SendPhase::Failed && action@ is Stop,
        old(sender).phase == SendPhase::Bundling && event is Bundled ==> final(sender).phase
            == SendPhase::Pushing && action@ == SendActionView::Push && final(session)@
            == old(session)@,
        old(sender).phase == SendPhase::Pushing && event is Pushed ==> final(sender).phase
            == SendPhase::Relaying && action@ == SendActionView::Relay && final(session)@
            == old(session)@,
        old(sender).phase == SendPhase::Relaying && event is Relayed ==> final(sender).phase
            == SendPhase::Sent && action@ == SendActionView::Done && final(session)@ == (
        SessionView {
            target_node: Some(old(sender).target_node@),
            phase: PhaseView::Migrating,
            ..old(session)@
        }),
{
}

/// A session that moves is asked to freeze, and the sender waits for that.
pub proof fn lemma_sending_begins(
    session: &mut AgentSession,
    target: &str,
    result: (MigrationSender, SendAction),
)
    requires
        call_ensures(MigrationSender::begin, (session, target), result),
    ensures
        final(session)@ == (SessionView {
            awaited: true,
            phase: PhaseView::Freezing,
            ..old(session)@
        }),
        result.0.phase == SendPhase::Freezing,
        result.0.target_node@ == target@,
        result.1@ == SendActionView::AwaitFreeze,
{
}

/// A session that arrives is pulled where it has a reference, then restored, then
/// acknowledged, and runs last. An error stops it.
pub proof fn lemma_receiving(
    reference: Option<String>,
    begun: (MigrationReceiver, ReceiveAction),
    receiver: &mut MigrationReceiver,
    result: Result<(), Error>,
    action: ReceiveAction,
)
    requires
        call_ensures(MigrationReceiver::begin, (&reference,), begun),
        call_ensures(MigrationReceiver::step, (receiver, result), action),
    ensures
        reference matches Some(h) ==> (h@.len() > 0 ==> begun.0.phase == ReceivePhase::Pulling
            && begun.1@ == (ReceiveActionView::Pull { ref_hash: h@ })),
        reference is None || reference->0@.len() == 0 ==> begun.0.phase
            == ReceivePhase::Restoring && begun.1@ == ReceiveActionView::Restore,
        result matches Err(e) ==> action@ == ReceiveActionView::Stop(e@) && final(receiver).phase
            == ReceivePhase::Failed,
        result is Ok && old(receiver).phase == ReceivePhase::Pulling ==> action@
            == ReceiveActionView::Restore && final(receiver).phase == ReceivePhase::Restoring,
        result is Ok && old(receiver).phase == ReceivePhase::Restoring ==> action@
            == ReceiveActionView::Acknowledge && final(receiver).phase
            == ReceivePhase::Acknowledging,
        result is Ok && old(receiver).phase == ReceivePhase::Acknowledging ==> action@
            == ReceiveActionView::Run && final(receiver).phase == ReceivePhase::Done,
{
}

// ---------------------------------------------------------------------------
// A session seen from elsewhere
// ---------------------------------------------------------------------------

/// A change of state carries what changed, each under its name, and leaves out what did not.
pub proof fn lemma_patch(p: PatchView)
    ensures
        sync::patch_json(p) matches JsonView::Object(m) && {
            &&& p.phase matches Some(t) ==> m.contains_pair("phase"@, JsonView::Text(t))
            &&& p.phase is None ==> !m.dom().contains("phase"@)
            &&& p.agent_status matches Some(v) ==> m.contains_pair("agent_status"@, v)
            &&& p.agent_status is None ==> !m.dom().contains("agent_status"@)
            &&& p.scenario matches Some(t) ==> m.contains_pair("scenario"@, JsonView::Text(t))
            &&& p.scenario is None ==> !m.dom().contains("scenario"@)
            &&& p.control_mode matches Some(t) ==> m.contains_pair(
                "control_mode"@,
                JsonView::Text(t),
            )
            &&& p.control_mode is None ==> !m.dom().contains("control_mode"@)
            &&& p.component_ref matches Some(t) ==> m.contains_pair(
                "component_ref"@,
                JsonView::Text(t),
            )
            &&& p.component_ref is None ==> !m.dom().contains("component_ref"@)
            &&& p.context matches Some(v) ==> m.contains_pair("context"@, v)
            &&& p.context is None ==> !m.dom().contains("context"@)
        },
{
    reveal_strlit("phase");
    reveal_strlit("agent_status");
    reveal_strlit("scenario");
    reveal_strlit("control_mode");
    reveal_strlit("component_ref");
    reveal_strlit("context");
    assert("phase"@.len() == 5 && "agent_status"@.len() == 12 && "scenario"@.len() == 8
        && "control_mode"@.len() == 12 && "component_ref"@.len() == 13 && "context"@.len() == 7);
    assert("agent_status"@[0] != "control_mode"@[0]);
}

/// What a device says names its kind under `type` and carries each part under its name.
pub proof fn lemma_device_says(
    patch: sync::StatePatch,
    changed: Json,
    now_ms: u64,
    alive: Json,
    kind: &str,
    id: &str,
    message: &str,
    context: Json,
    asks: Json,
    request_id: &str,
    outcome: Json,
    error: Option<String>,
    answers: Json,
)
    requires
        call_ensures(sync::patch_message, (&patch,), changed),
        call_ensures(sync::heartbeat_message, (now_ms,), alive),
        call_ensures(sync::interrupt_message, (kind, id, message, context), asks),
        call_ensures(sync::tool_result_message, (request_id, outcome, &error), answers),
    ensures
        changed@ matches JsonView::Object(m) && m["type"@] == JsonView::Text("state_patch"@)
            && m["patch"@] == sync::patch_json(patch@),
        alive@ matches JsonView::Object(m) && m["type"@] == JsonView::Text("heartbeat"@)
            && m["ts"@] == JsonView::Number(JsonNumberView::Natural(now_ms)),
        asks@ matches JsonView::Object(m) && m["type"@] == JsonView::Text("interrupt"@)
            && m["kind"@] == JsonView::Text(kind@) && m["id"@] == JsonView::Text(id@)
            && m["message"@] == JsonView::Text(message@) && m["context"@] == context@,
        answers@ matches JsonView::Object(m) && m["type"@] == JsonView::Text("tool_result"@)
            && m["request_id"@] == JsonView::Text(request_id@) && m["result"@] == outcome@
            && m["error"@] == (match error {
            Some(e) => JsonView::Text(e@),
            None => JsonView::Null,
        }),
{
    reveal_strlit("type");
    reveal_strlit("patch");
    reveal_strlit("ts");
    reveal_strlit("kind");
    reveal_strlit("id");
    reveal_strlit("message");
    reveal_strlit("context");
    reveal_strlit("request_id");
    reveal_strlit("result");
    reveal_strlit("error");
    assert("type"@.len() == 4 && "patch"@.len() == 5 && "ts"@.len() == 2 && "kind"@.len() == 4
        && "id"@.len() == 2 && "message"@.len() == 7 && "context"@.len() == 7
        && "request_id"@.len() == 10 && "result"@.len() == 6 && "error"@.len() == 5);
    assert("type"@[0] != "kind"@[0]);
    assert("message"@[0] != "context"@[0]);
}

/// What a device is asked is read by its kind with each of its parts; an input or a resolution
/// that is left out is null.
pub proof fn lemma_device_hears(a: Seq<char>, b: Seq<char>, v: JsonView)
    ensures
        ({
            let call = Map::<Seq<char>, JsonView>::empty().insert(
                "type"@,
                JsonView::Text("tool_call"@),
            ).insert("request_id"@, JsonView::Text(a)).insert("tool"@, JsonView::Text(b));
            let reply = Map::<Seq<char>, JsonView>::empty().insert(
                "type"@,
                JsonView::Text("interrupt_response"@),
            ).insert("interrupt_id"@, JsonView::Text(a));
            let away = Map::<Seq<char>, JsonView>::empty().insert(
                "type"@,
                JsonView::Text("migrate_to_cloud"@),
            ).insert("session_id"@, JsonView::Text(a));
            &&& sync::inbound_of(JsonView::Object(call.insert("input"@, v))) == Some(
                InboundView::ToolCall { request_id: a, tool: b, input: v },
            )
            &&& sync::inbound_of(JsonView::Object(call)) == Some(
                InboundView::ToolCall { request_id: a, tool: b, input: JsonView::Null },
            )
            &&& sync::inbound_of(JsonView::Object(reply.insert("resolution"@, v))) == Some(
                InboundView::InterruptResponse { interrupt_id: a, resolution: v },
            )
            &&& sync::inbound_of(JsonView::Object(reply)) == Some(
                InboundView::InterruptResponse { interrupt_id: a, resolution: JsonView::Null },
            )
            &&& sync::inbound_of(JsonView::Object(away)) == Some(
                InboundView::MigrateToCloud { session_id: a },
            )
        }),
{
    reveal_strlit("type");
    reveal_strlit("request_id");
    reveal_strlit("tool");
    reveal_strlit("input");
    reveal_strlit("interrupt_id");
    reveal_strlit("resolution");
    reveal_strlit("session_id");
    reveal_strlit("tool_call");
    reveal_strlit("interrupt_response");
    reveal_strlit("migrate_to_cloud");
    assert("type"@.len() == 4 && "request_id"@.len() == 10 && "tool"@.len() == 4 && "input"@.len()
        == 5 && "interrupt_id"@.len() == 12 && "resolution"@.len() == 10 && "session_id"@.len()
        == 10);
    assert("type"@[1] != "tool"@[1]);
    assert("tool_call"@.len() == 9 && "interrupt_response"@.len() == 18 && "migrate_to_cloud"@.len()
        == 16);
}

/// The node of a session in the cloud goes by the session's id.
pub proof fn lemma_cloud_node(session_id: &str, node: String)
    requires
        call_ensures(sync::cloud_node, (session_id,), node),
    ensures
        node@ == "cloud-"@ + session_id@,
{
}

/// A change that tells one thing tells nothing else.
pub proof fn lemma_one_change(
    v: Json,
    status: sync::StatePatch,
    context: sync::StatePatch,
    none: sync::StatePatch,
)
    requires
        call_ensures(sync::StatePatch::agent_status, (v,), status),
        call_ensures(sync::StatePatch::context, (v,), context),
        call_ensures(<sync::StatePatch as Default>::default, (), none),
    ensures
        sync::patch_json(status@) == JsonView::Object(map!["agent_status"@ => v@]),
        sync::patch_json(context@) == JsonView::Object(map!["context"@ => v@]),
        sync::patch_json(none@) == JsonView::Object(Map::empty()),
{
    assert(sync::patch_json(status@)->Object_0 =~= map!["agent_status"@ => v@]);
    assert(sync::patch_json(context@)->Object_0 =~= map!["context"@ => v@]);
    assert(sync::patch_json(none@)->Object_0 =~= Map::empty());
}

/// What registers a flavour and a version tells the two, each under its name.
pub proof fn lemma_registers_as(flavor: &str, version: &str, body: Json)
    requires
        call_ensures(FleetClient::register_as, (flavor, version), body),
    ensures
        body@ == JsonView::Object(
            map![
                "flavor"@ => JsonView::Text(flavor@),
                "os_version"@ => JsonView::Text(version@),
            ],
        ),
{
}

/// The socket of a session is at the fleet's address with the scheme for sockets, a secure one
/// where the address is secure.
pub proof fn lemma_socket(rest: Seq<char>, session_id: Seq<char>)
    requires
        !text::occurs(rest, "https://"@),
        !text::occurs(rest, "http://"@),
        !text::occurs("wss://"@ + rest, "http://"@),
    ensures
        sync::socket_address("https://"@ + rest, session_id) == "wss://"@ + rest
            + "/v1/fleet/sessions/"@ + session_id + "/ws?role=device"@,
        !text::occurs("http://"@ + rest, "https://"@) ==> sync::socket_address(
            "http://"@ + rest,
            session_id,
        ) == "ws://"@ + rest + "/v1/fleet/sessions/"@ + session_id + "/ws?role=device"@,
{
    reveal_strlit("https://");
    reveal_strlit("http://");
    text_laws::lemma_nothing_to_replace(rest, "https://"@, "wss://"@);
    text_laws::lemma_nothing_to_replace(rest, "http://"@, "ws://"@);
    text_laws::lemma_nothing_to_replace("wss://"@ + rest, "http://"@, "ws://"@);
    text_laws::lemma_first_is_replaced(Seq::empty(), "https://"@, "wss://"@, rest);
    text_laws::lemma_first_is_replaced(Seq::empty(), "http://"@, "ws://"@, rest);
    assert(Seq::<char>::empty() + "https://"@ + rest =~= "https://"@ + rest);
    assert(Seq::<char>::empty() + "wss://"@ + rest =~= "wss://"@ + rest);
    assert(Seq::<char>::empty() + "http://"@ + rest =~= "http://"@ + rest);
    assert(Seq::<char>::empty() + "ws://"@ + rest =~= "ws://"@ + rest);
    if !text::occurs("http://"@ + rest, "https://"@) {
        text_laws::lemma_nothing_to_replace("http://"@ + rest, "https://"@, "wss://"@);
    }
}

/// A failure to enrol says what failed.
pub proof fn lemma_failures_in_words(t: Seq<char>)
    ensures
        AuthErrorView::Network(t).message() == "network error: "@ + t,
        AuthErrorView::ExpiredToken.message() == "device code expired before approval"@,
        AuthErrorView::AccessDenied.message() == "access denied by user"@,
        AuthErrorView::Io(t).message() == "io: "@ + t,
        AuthErrorView::Server(t).message() == "auth server error: "@ + t,
{
}

} // verus!
