//! A session as its owner sees it from elsewhere: what the device tells of it, and what it is
//! asked to do.

use vstd::prelude::*;
use crate::json;
use crate::json::Json;
use crate::json::JsonNumberView;
use crate::json::JsonView;
use crate::mcp::rpc;
use crate::text;

verus! {

/// What changed in a session; what did not change is left out.
pub struct StatePatch {
    /// Active, parked or migrating.
    pub phase: Option<String>,
    pub agent_status: Option<Json>,
    pub scenario: Option<String>,
    pub control_mode: Option<String>,
    pub component_ref: Option<String>,
    pub context: Option<Json>,
}

/// What a change is.
#[verifier::ext_equal]
pub struct PatchView {
    pub phase: Option<Seq<char>>,
    pub agent_status: Option<JsonView>,
    pub scenario: Option<Seq<char>>,
    pub control_mode: Option<Seq<char>>,
    pub component_ref: Option<Seq<char>>,
    pub context: Option<JsonView>,
}

impl View for StatePatch {
    type V = PatchView;

    open spec fn view(&self) -> PatchView {
        PatchView {
            phase: text::opt_view(self.phase),
            agent_status: rpc::opt_json(self.agent_status),
            scenario: text::opt_view(self.scenario),
            control_mode: text::opt_view(self.control_mode),
            component_ref: text::opt_view(self.component_ref),
            context: rpc::opt_json(self.context),
        }
    }
}

/// No change.
pub open spec fn no_change() -> PatchView {
    PatchView {
        phase: None,
        agent_status: None,
        scenario: None,
        control_mode: None,
        component_ref: None,
        context: None,
    }
}

/// The document of an optional text.
pub open spec fn text_member(t: Option<Seq<char>>) -> Option<JsonView> {
    match t {
        Some(s) => Some(JsonView::Text(s)),
        None => None,
    }
}

/// The document of a change: what did not change is left out.
pub open spec fn patch_json(p: PatchView) -> JsonView {
    let a = rpc::with_some(Map::empty(), "phase"@, text_member(p.phase));
    let b = rpc::with_some(a, "agent_status"@, p.agent_status);
    let c = rpc::with_some(b, "scenario"@, text_member(p.scenario));
    let d = rpc::with_some(c, "control_mode"@, text_member(p.control_mode));
    let e = rpc::with_some(d, "component_ref"@, text_member(p.component_ref));
    JsonView::Object(rpc::with_some(e, "context"@, p.context))
}

fn add_text(v: Json, name: &str, value: &Option<String>) -> (more: Json)
    requires
        v@ is Object,
    ensures
        more@ == JsonView::Object(
            rpc::with_some(v@->Object_0, name@, text_member(text::opt_view(*value))),
        ),
{
    match value {
        Some(t) => v.with(name, Json::of_text(t.as_str())),
        None => v,
    }
}

fn add_json(v: Json, name: &str, value: &Option<Json>) -> (more: Json)
    requires
        v@ is Object,
    ensures
        more@ == JsonView::Object(rpc::with_some(v@->Object_0, name@, rpc::opt_json(*value))),
{
    match value {
        Some(j) => v.with(name, j.copy()),
        None => v,
    }
}

impl Default for StatePatch {
    fn default() -> (patch: Self)
        ensures
            patch@ == no_change(),
    {
        StatePatch {
            phase: None,
            agent_status: None,
            scenario: None,
            control_mode: None,
            component_ref: None,
            context: None,
        }
    }
}

impl StatePatch {
    /// A change of the agent's status.
    pub fn agent_status(status: Json) -> (patch: Self)
        ensures
            patch@ == (PatchView { agent_status: Some(status@), ..no_change() }),
    {
        StatePatch { agent_status: Some(status), ..StatePatch::default() }
    }

    /// A change of the context.
    pub fn context(ctx: Json) -> (patch: Self)
        ensures
            patch@ == (PatchView { context: Some(ctx@), ..no_change() }),
    {
        StatePatch { context: Some(ctx), ..StatePatch::default() }
    }

    /// The document of the change.
    pub fn to_json(&self) -> (v: Json)
        ensures
            v@ == patch_json(self@),
    {
        let a = add_text(Json::object(), "phase", &self.phase);
        let b = add_json(a, "agent_status", &self.agent_status);
        let c = add_text(b, "scenario", &self.scenario);
        let d = add_text(c, "control_mode", &self.control_mode);
        let e = add_text(d, "component_ref", &self.component_ref);
        add_json(e, "context", &self.context)
    }
}

// ---------------------------------------------------------------------------
// What the device says
// ---------------------------------------------------------------------------

/// The members of a message of a type.
pub open spec fn typed(name: Seq<char>) -> Map<Seq<char>, JsonView> {
    Map::empty().insert("type"@, JsonView::Text(name))
}

fn start(name: &str) -> (v: Json)
    ensures
        v@ == JsonView::Object(typed(name@)),
{
    Json::object().with("type", Json::of_text(name))
}

/// Tells of a change.
pub fn patch_message(patch: &StatePatch) -> (v: Json)
    ensures
        v@ == JsonView::Object(typed("state_patch"@).insert("patch"@, patch_json(patch@))),
{
    start("state_patch").with("patch", patch.to_json())
}

/// Tells that the device is alive.
pub fn heartbeat_message(now_ms: u64) -> (v: Json)
    ensures
        v@ == JsonView::Object(
            typed("heartbeat"@).insert("ts"@, JsonView::Number(JsonNumberView::Natural(now_ms))),
        ),
{
    start("heartbeat").with("ts", Json::of_natural(now_ms))
}

/// Asks the owner.
pub fn interrupt_message(kind: &str, id: &str, message: &str, context: Json) -> (v: Json)
    ensures
        v@ == JsonView::Object(
            typed("interrupt"@).insert("kind"@, JsonView::Text(kind@)).insert(
                "id"@,
                JsonView::Text(id@),
            ).insert("message"@, JsonView::Text(message@)).insert("context"@, context@),
        ),
{
    start("interrupt").with("kind", Json::of_text(kind)).with("id", Json::of_text(id)).with(
        "message",
        Json::of_text(message),
    ).with("context", context)
}

/// Tells what a tool gave.
pub fn tool_result_message(request_id: &str, result: Json, error: &Option<String>) -> (v: Json)
    ensures
        v@ == JsonView::Object(
            typed("tool_result"@).insert("request_id"@, JsonView::Text(request_id@)).insert(
                "result"@,
                result@,
            ).insert("error"@, json::opt_text(text::opt_view(*error))),
        ),
{
    start("tool_result").with("request_id", Json::of_text(request_id)).with(
        "result",
        result,
    ).with("error", Json::of_opt_text(error))
}

// ---------------------------------------------------------------------------
// What the device is asked
// ---------------------------------------------------------------------------

/// What a client asks of the device.
pub enum DeviceInbound {
    /// To use a tool.
    ToolCall { request_id: String, tool: String, input: Json },
    /// The answer to a question of the device.
    InterruptResponse { interrupt_id: String, resolution: Json },
    /// To move the session to the cloud.
    MigrateToCloud { session_id: String },
}

/// What such a message is.
#[allow(inconsistent_fields)]
#[verifier::ext_equal]
pub enum InboundView {
    ToolCall { request_id: Seq<char>, tool: Seq<char>, input: JsonView },
    InterruptResponse { interrupt_id: Seq<char>, resolution: JsonView },
    MigrateToCloud { session_id: Seq<char> },
}

impl View for DeviceInbound {
    type V = InboundView;

    open spec fn view(&self) -> InboundView {
        match self {
            DeviceInbound::ToolCall { request_id, tool, input } => InboundView::ToolCall {
                request_id: request_id@,
                tool: tool@,
                input: input@,
            },
            DeviceInbound::InterruptResponse { interrupt_id, resolution } =>
                InboundView::InterruptResponse {
                    interrupt_id: interrupt_id@,
                    resolution: resolution@,
                },
            DeviceInbound::MigrateToCloud { session_id } => InboundView::MigrateToCloud {
                session_id: session_id@,
            },
        }
    }
}

/// What a message asks. The input of a tool and an answer may be left out. A message of
/// another type asks nothing.
pub open spec fn inbound_of(v: JsonView) -> Option<InboundView> {
    match v.text_field("type"@) {
        None => None,
        Some(name) => if name == "tool_call"@ {
            match (v.text_field("request_id"@), v.text_field("tool"@)) {
                (Some(request_id), Some(tool)) => Some(
                    InboundView::ToolCall { request_id, tool, input: v.at("input"@) },
                ),
                _ => None,
            }
        } else if name == "interrupt_response"@ {
            match v.text_field("interrupt_id"@) {
                Some(interrupt_id) => Some(
                    InboundView::InterruptResponse {
                        interrupt_id,
                        resolution: v.at("resolution"@),
                    },
                ),
                None => None,
            }
        } else if name == "migrate_to_cloud"@ {
            match v.text_field("session_id"@) {
                Some(session_id) => Some(InboundView::MigrateToCloud { session_id }),
                None => None,
            }
        } else {
            None
        },
    }
}

/// What an optional message is.
pub open spec fn opt_inbound(m: Option<DeviceInbound>) -> Option<InboundView> {
    match m {
        Some(i) => Some(i@),
        None => None,
    }
}

impl DeviceInbound {
    /// What a message asks.
    pub fn from_json(v: &Json) -> (message: Option<DeviceInbound>)
        ensures
            opt_inbound(message) == inbound_of(v@),
    {
        let name = match v.get_text("type") {
            Some(name) => name,
            None => {
                return None;
            },
        };
        if text::same_text(name.as_str(), "tool_call") {
            match (v.get_text("request_id"), v.get_text("tool")) {
                (Some(request_id), Some(tool)) => Some(
                    DeviceInbound::ToolCall { request_id, tool, input: v.at("input") },
                ),
                _ => None,
            }
        } else if text::same_text(name.as_str(), "interrupt_response") {
            match v.get_text("interrupt_id") {
                Some(interrupt_id) => Some(
                    DeviceInbound::InterruptResponse {
                        interrupt_id,
                        resolution: v.at("resolution"),
                    },
                ),
                None => None,
            }
        } else if text::same_text(name.as_str(), "migrate_to_cloud") {
            match v.get_text("session_id") {
                Some(session_id) => Some(DeviceInbound::MigrateToCloud { session_id }),
                None => None,
            }
        } else {
            None
        }
    }

    /// What a line asks, if anything.
    pub fn read(line: &str) -> (message: Option<DeviceInbound>)
        ensures
            opt_inbound(message) == (match json::parsed(line@) {
                Some(v) => inbound_of(v),
                None => None,
            }),
    {
        match json::parse(line) {
            Some(v) => DeviceInbound::from_json(&v),
            None => None,
        }
    }
}

/// The address of the socket of a session: the fleet's, with the scheme for sockets.
pub open spec fn socket_address(base_url: Seq<char>, session_id: Seq<char>) -> Seq<char> {
    text::replaced(
        text::replaced(base_url, "https://"@, "wss://"@),
        "http://"@,
        "ws://"@,
    ) + "/v1/fleet/sessions/"@ + session_id + "/ws?role=device"@
}

/// The address of the socket of a session.
pub fn socket_url(base_url: &str, session_id: &str) -> (url: String)
    ensures
        url@ == socket_address(base_url@, session_id@),
{
    proof {
        reveal_strlit("https://");
        reveal_strlit("http://");
    }
    let secure = text::replace(base_url, "https://", "wss://");
    let mut url = text::replace(secure.as_str(), "http://", "ws://");
    url.append("/v1/fleet/sessions/");
    url.append(session_id);
    url.append("/ws?role=device");
    url
}

/// The node in the cloud to which a session moves.
pub fn cloud_node(session_id: &str) -> (node: String)
    ensures
        node@ == "cloud-"@ + session_id@,
{
    "cloud-".to_string().concat(session_id)
}

} // verus!
