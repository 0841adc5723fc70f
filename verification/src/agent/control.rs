//! Messages from the compositor to the agent, and their form on the wire.

use vstd::prelude::*;
use crate::agent::mode::ControlMode;
use crate::agent::mode;
use crate::agent::types::ApprovalDecision;
use crate::agent::types::ApprovalView;
use crate::json;
use crate::json::Json;
use crate::json::JsonNumber;
use crate::json::JsonNumberView;
use crate::json::JsonView;
use crate::text;

verus! {

/// One surface on the screen.
pub struct SurfaceInfo {
    pub app_id: String,
    pub title: String,
    pub x: i32,
    pub y: i32,
    pub w: i32,
    pub h: i32,
    pub focused: bool,
}

/// What a surface is.
#[verifier::ext_equal]
pub struct SurfaceInfoView {
    pub app_id: Seq<char>,
    pub title: Seq<char>,
    pub x: i32,
    pub y: i32,
    pub w: i32,
    pub h: i32,
    pub focused: bool,
}

impl View for SurfaceInfo {
    type V = SurfaceInfoView;

    open spec fn view(&self) -> SurfaceInfoView {
        SurfaceInfoView {
            app_id: self.app_id@,
            title: self.title@,
            x: self.x,
            y: self.y,
            w: self.w,
            h: self.h,
            focused: self.focused,
        }
    }
}

/// The coarse phases of the first start.
#[derive(Debug, Clone, Copy, PartialEq, Eq, Structural)]
pub enum OobeStepKind {
    Welcome,
    AccountSetup,
    ModelDownload,
    Done,
}

/// A message to the agent.
#[allow(inconsistent_fields)]
pub enum ControlMessage {
    /// The user said something.
    UserInput { text: String },
    /// The user changed the control mode.
    ModeChange { mode: ControlMode },
    /// The user answered an approval request.
    ApprovalResponse { request_id: String, decision: ApprovalDecision },
    /// Stop at once.
    StopSession { session_id: String },
    /// Freeze the session.
    ParkSession { session_id: String },
    /// Freeze the session to move it to another node.
    MigrateSession { session_id: String, target_node: String },
    /// Take a snapshot without freezing.
    CaptureSnapshot { snapshot_id: String },
    /// What is on the screen.
    SurfaceInventory { surfaces: Vec<SurfaceInfo> },
    /// Resume a frozen session.
    ResumeSession { session_id: String },
    /// Begin a new session.
    CreateSession { session_id: String, label: Option<String> },
    /// The user answered a step of the first start.
    OobeInput { step: String, value: Json },
    /// Hold a session in memory until it is unlocked.
    LockSession { session_id: String },
    /// Resume a locked session.
    UnlockSession { session_id: String, pin: Option<String> },
}

/// What a message is.
#[allow(inconsistent_fields)]
#[verifier::ext_equal]
pub enum ControlView {
    UserInput { text: Seq<char> },
    ModeChange { mode: ControlMode },
    ApprovalResponse { request_id: Seq<char>, decision: ApprovalView },
    StopSession { session_id: Seq<char> },
    ParkSession { session_id: Seq<char> },
    MigrateSession { session_id: Seq<char>, target_node: Seq<char> },
    CaptureSnapshot { snapshot_id: Seq<char> },
    SurfaceInventory { surfaces: Seq<SurfaceInfoView> },
    ResumeSession { session_id: Seq<char> },
    CreateSession { session_id: Seq<char>, label: Option<Seq<char>> },
    OobeInput { step: Seq<char>, value: JsonView },
    LockSession { session_id: Seq<char> },
    UnlockSession { session_id: Seq<char>, pin: Option<Seq<char>> },
}

impl View for ControlMessage {
    type V = ControlView;

    open spec fn view(&self) -> ControlView {
        match self {
            ControlMessage::UserInput { text } => ControlView::UserInput { text: text@ },
            ControlMessage::ModeChange { mode } => ControlView::ModeChange { mode: *mode },
            ControlMessage::ApprovalResponse { request_id, decision } =>
                ControlView::ApprovalResponse { request_id: request_id@, decision: decision@ },
            ControlMessage::StopSession { session_id } => ControlView::StopSession {
                session_id: session_id@,
            },
            ControlMessage::ParkSession { session_id } => ControlView::ParkSession {
                session_id: session_id@,
            },
            ControlMessage::MigrateSession { session_id, target_node } =>
                ControlView::MigrateSession {
                    session_id: session_id@,
                    target_node: target_node@,
                },
            ControlMessage::CaptureSnapshot { snapshot_id } => ControlView::CaptureSnapshot {
                snapshot_id: snapshot_id@,
            },
            ControlMessage::SurfaceInventory { surfaces } => ControlView::SurfaceInventory {
                surfaces: Seq::new(surfaces@.len(), |i: int| surfaces@[i]@),
            },
            ControlMessage::ResumeSession { session_id } => ControlView::ResumeSession {
                session_id: session_id@,
            },
            ControlMessage::CreateSession { session_id, label } => ControlView::CreateSession {
                session_id: session_id@,
                label: text::opt_view(*label),
            },
            ControlMessage::OobeInput { step, value } => ControlView::OobeInput {
                step: step@,
                value: value@,
            },
            ControlMessage::LockSession { session_id } => ControlView::LockSession {
                session_id: session_id@,
            },
            ControlMessage::UnlockSession { session_id, pin } => ControlView::UnlockSession {
                session_id: session_id@,
                pin: text::opt_view(*pin),
            },
        }
    }
}

// ---------------------------------------------------------------------------
// Writing
// ---------------------------------------------------------------------------

/// The object that begins with a tag.
pub open spec fn tagged(tag: Seq<char>) -> Map<Seq<char>, JsonView> {
    Map::empty().insert("type"@, JsonView::Text(tag))
}

/// A surface as JSON.
pub open spec fn surface_json(s: SurfaceInfoView) -> JsonView {
    JsonView::Object(
        Map::empty().insert("app_id"@, JsonView::Text(s.app_id)).insert(
            "title"@,
            JsonView::Text(s.title),
        ).insert("x"@, json::integer(s.x as i64)).insert("y"@, json::integer(s.y as i64)).insert(
            "w"@,
            json::integer(s.w as i64),
        ).insert("h"@, json::integer(s.h as i64)).insert("focused"@, JsonView::Bool(s.focused)),
    )
}

/// An answer as JSON.
pub open spec fn approval_json(a: ApprovalView) -> JsonView {
    match a {
        ApprovalView::Approved => JsonView::Text("approved"@),
        ApprovalView::Rejected => JsonView::Text("rejected"@),
        ApprovalView::Redirected(new_intent) => JsonView::Object(
            Map::empty().insert(
                "redirected"@,
                JsonView::Object(Map::empty().insert("new_intent"@, JsonView::Text(new_intent))),
            ),
        ),
    }
}

/// The object with a tag and a session.
pub open spec fn session_tagged(tag: Seq<char>, session_id: Seq<char>) -> Map<
    Seq<char>,
    JsonView,
> {
    tagged(tag).insert("session_id"@, JsonView::Text(session_id))
}

/// A message as JSON: an object with the tag `type` and the fields.
pub open spec fn control_json(m: ControlView) -> JsonView {
    JsonView::Object(
        match m {
            ControlView::UserInput { text } => tagged("user_input"@).insert(
                "text"@,
                JsonView::Text(text),
            ),
            ControlView::ModeChange { mode } => tagged("mode_change"@).insert(
                "mode"@,
                JsonView::Text(mode.wire()),
            ),
            ControlView::ApprovalResponse { request_id, decision } => tagged(
                "approval_response"@,
            ).insert("request_id"@, JsonView::Text(request_id)).insert(
                "decision"@,
                approval_json(decision),
            ),
            ControlView::StopSession { session_id } => session_tagged("stop_session"@, session_id),
            ControlView::ParkSession { session_id } => session_tagged("park_session"@, session_id),
            ControlView::MigrateSession { session_id, target_node } => session_tagged(
                "migrate_session"@,
                session_id,
            ).insert("target_node"@, JsonView::Text(target_node)),
            ControlView::CaptureSnapshot { snapshot_id } => tagged("capture_snapshot"@).insert(
                "snapshot_id"@,
                JsonView::Text(snapshot_id),
            ),
            ControlView::SurfaceInventory { surfaces } => tagged("surface_inventory"@).insert(
                "surfaces"@,
                JsonView::Array(Seq::new(surfaces.len(), |i: int| surface_json(surfaces[i]))),
            ),
            ControlView::ResumeSession { session_id } => session_tagged(
                "resume_session"@,
                session_id,
            ),
            ControlView::CreateSession { session_id, label } => session_tagged(
                "create_session"@,
                session_id,
            ).insert("label"@, json::opt_text(label)),
            ControlView::OobeInput { step, value } => tagged("oobe_input"@).insert(
                "step"@,
                JsonView::Text(step),
            ).insert("value"@, value),
            ControlView::LockSession { session_id } => session_tagged("lock_session"@, session_id),
            ControlView::UnlockSession { session_id, pin } => session_tagged(
                "unlock_session"@,
                session_id,
            ).insert("pin"@, json::opt_text(pin)),
        },
    )
}

fn start(tag: &str) -> (v: Json)
    ensures
        v@ == JsonView::Object(tagged(tag@)),
{
    Json::object().with("type", Json::of_text(tag))
}

fn start_session(tag: &str, session_id: &String) -> (v: Json)
    ensures
        v@ == JsonView::Object(session_tagged(tag@, session_id@)),
{
    start(tag).with("session_id", Json::Text(session_id.clone()))
}

impl SurfaceInfo {
    /// The surface as JSON.
    pub fn to_json(&self) -> (v: Json)
        ensures
            v@ == surface_json(self@),
    {
        Json::object().with("app_id", Json::Text(self.app_id.clone())).with(
            "title",
            Json::Text(self.title.clone()),
        ).with("x", Json::of_integer(self.x as i64)).with(
            "y",
            Json::of_integer(self.y as i64),
        ).with("w", Json::of_integer(self.w as i64)).with(
            "h",
            Json::of_integer(self.h as i64),
        ).with("focused", Json::Bool(self.focused))
    }
}

fn write_approval(decision: &ApprovalDecision) -> (v: Json)
    ensures
        v@ == approval_json(decision@),
{
    match decision {
        ApprovalDecision::Approved => Json::of_text("approved"),
        ApprovalDecision::Rejected => Json::of_text("rejected"),
        ApprovalDecision::Redirected { new_intent } => Json::object().with(
            "redirected",
            Json::object().with("new_intent", Json::Text(new_intent.clone())),
        ),
    }
}

fn write_surfaces(surfaces: &Vec<SurfaceInfo>) -> (v: Json)
    ensures
        v@ == JsonView::Array(Seq::new(surfaces@.len(), |i: int| surface_json(surfaces@[i]@))),
{
    let mut items: Vec<Json> = Vec::new();
    let mut i: usize = 0;
    while i < surfaces.len()
        invariant
            i <= surfaces.len(),
            items.len() == i,
            forall|k: int| 0 <= k < i ==> (#[trigger] items@[k])@ == surface_json(surfaces@[k]@),
        decreases surfaces.len() - i,
    {
        items.push(surfaces[i].to_json());
        i += 1;
    }
    let ghost wanted = Seq::new(surfaces@.len(), |i: int| surface_json(surfaces@[i]@));
    proof {
        json::lemma_items_view(items@);
        assert forall|k: int| 0 <= k < wanted.len() implies json::items_view(items@)[k]
            == #[trigger] wanted[k] by {
            assert(items@[k]@ == surface_json(surfaces@[k]@));
        }
        assert(json::items_view(items@) =~= wanted);
    }
    Json::Array(items)
}

impl ControlMessage {
    /// The message as JSON.
    pub fn to_json(&self) -> (v: Json)
        ensures
            v@ == control_json(self@),
    {
        match self {
            ControlMessage::UserInput { text } => start("user_input").with(
                "text",
                Json::Text(text.clone()),
            ),
            ControlMessage::ModeChange { mode } => start("mode_change").with(
                "mode",
                Json::Text(mode.wire_name()),
            ),
            ControlMessage::ApprovalResponse { request_id, decision } => start(
                "approval_response",
            ).with("request_id", Json::Text(request_id.clone())).with(
                "decision",
                write_approval(decision),
            ),
            ControlMessage::StopSession { session_id } => start_session(
                "stop_session",
                session_id,
            ),
            ControlMessage::ParkSession { session_id } => start_session(
                "park_session",
                session_id,
            ),
            ControlMessage::MigrateSession { session_id, target_node } => start_session(
                "migrate_session",
                session_id,
            ).with("target_node", Json::Text(target_node.clone())),
            ControlMessage::CaptureSnapshot { snapshot_id } => start("capture_snapshot").with(
                "snapshot_id",
                Json::Text(snapshot_id.clone()),
            ),
            ControlMessage::SurfaceInventory { surfaces } => {
                let list = write_surfaces(surfaces);
                proof {
                    let seen = Seq::new(surfaces@.len(), |i: int| surfaces@[i]@);
                    assert(Seq::new(surfaces@.len(), |i: int| surface_json(surfaces@[i]@))
                        =~= Seq::new(seen.len(), |i: int| surface_json(seen[i])));
                }
                start("surface_inventory").with("surfaces", list)
            },
            ControlMessage::ResumeSession { session_id } => start_session(
                "resume_session",
                session_id,
            ),
            ControlMessage::CreateSession { session_id, label } => start_session(
                "create_session",
                session_id,
            ).with("label", Json::of_opt_text(label)),
            ControlMessage::OobeInput { step, value } => start("oobe_input").with(
                "step",
                Json::Text(step.clone()),
            ).with("value", value.copy()),
            ControlMessage::LockSession { session_id } => start_session(
                "lock_session",
                session_id,
            ),
            ControlMessage::UnlockSession { session_id, pin } => start_session(
                "unlock_session",
                session_id,
            ).with("pin", Json::of_opt_text(pin)),
        }
    }
}

// ---------------------------------------------------------------------------
// Reading
// ---------------------------------------------------------------------------

/// The number that a document is, where it fits.
pub open spec fn small_integer(v: Option<JsonView>) -> Option<i32> {
    match v {
        Some(JsonView::Number(JsonNumberView::Natural(n))) => if n <= i32::MAX {
            Some(n as i32)
        } else {
            None
        },
        Some(JsonView::Number(JsonNumberView::Negative(n))) => if i32::MIN <= n <= i32::MAX {
            Some(n as i32)
        } else {
            None
        },
        _ => None,
    }
}

/// An optional text: missing and null are none.
pub open spec fn optional_text(v: Option<JsonView>) -> Option<Option<Seq<char>>> {
    match v {
        None => Some(None),
        Some(JsonView::Null) => Some(None),
        Some(JsonView::Text(t)) => Some(Some(t)),
        _ => None,
    }
}

/// The members of a surface.
pub open spec fn surface_fields() -> Seq<&'static str> {
    seq!["app_id", "title", "x", "y", "w", "h", "focused"]
}

/// The surface that a document stands for, by the names of its members or by their places.
pub open spec fn surface_of_json(v: JsonView) -> Option<SurfaceInfoView> {
    let v = json::named(v, surface_fields());
    match (
        v.text_field("app_id"@),
        v.text_field("title"@),
        small_integer(v.field("x"@)),
        small_integer(v.field("y"@)),
        small_integer(v.field("w"@)),
        small_integer(v.field("h"@)),
        v.bool_field("focused"@),
    ) {
        (Some(app_id), Some(title), Some(x), Some(y), Some(w), Some(h), Some(focused)) => Some(
            SurfaceInfoView { app_id, title, x, y, w, h, focused },
        ),
        _ => None,
    }
}

/// The surfaces that documents stand for, if each stands for one.
pub open spec fn surfaces_of_list(items: Seq<JsonView>) -> Option<Seq<SurfaceInfoView>>
    decreases items.len(),
{
    if items.len() == 0 {
        Some(Seq::empty())
    } else {
        match (surfaces_of_list(items.drop_last()), surface_of_json(items.last())) {
            (Some(before), Some(s)) => Some(before.push(s)),
            _ => None,
        }
    }
}

/// The mode of a name.
pub open spec fn mode_of(name: Seq<char>) -> Option<ControlMode> {
    if name == "bypass_permissions"@ {
        Some(ControlMode::BypassPermissions)
    } else if name == "agent_mode"@ {
        Some(ControlMode::AgentMode)
    } else if name == "assisted_mode"@ {
        Some(ControlMode::AssistedMode)
    } else if name == "human_mode"@ {
        Some(ControlMode::HumanMode)
    } else {
        None
    }
}

/// The answer of a name without more.
pub open spec fn plain_approval(name: Seq<char>) -> Option<ApprovalView> {
    if name == "approved"@ {
        Some(ApprovalView::Approved)
    } else if name == "rejected"@ {
        Some(ApprovalView::Rejected)
    } else {
        None
    }
}

/// The answer that a document stands for.
pub open spec fn approval_of_json(v: JsonView) -> Option<ApprovalView> {
    match v {
        JsonView::Text(name) => plain_approval(name),
        _ => match json::only_field(v) {
            Some((name, value)) => if name == "redirected"@ {
                match value.text_field("new_intent"@) {
                    Some(t) => Some(ApprovalView::Redirected(t)),
                    None => None,
                }
            } else if value == JsonView::Null {
                plain_approval(name)
            } else {
                None
            },
            None => None,
        },
    }
}

/// The message that a document stands for.
pub open spec fn control_of_json(v: JsonView) -> Option<ControlView> {
    match v.text_field("type"@) {
        None => None,
        Some(tag) => {
            let session = v.text_field("session_id"@);
            if tag == "user_input"@ {
                match v.text_field("text"@) {
                    Some(text) => Some(ControlView::UserInput { text }),
                    None => None,
                }
            } else if tag == "mode_change"@ {
                match v.text_field("mode"@) {
                    Some(name) => match mode_of(name) {
                        Some(mode) => Some(ControlView::ModeChange { mode }),
                        None => None,
                    },
                    None => None,
                }
            } else if tag == "approval_response"@ {
                match (v.text_field("request_id"@), v.field("decision"@)) {
                    (Some(request_id), Some(d)) => match approval_of_json(d) {
                        Some(decision) => Some(
                            ControlView::ApprovalResponse { request_id, decision },
                        ),
                        None => None,
                    },
                    _ => None,
                }
            } else if tag == "stop_session"@ {
                match session {
                    Some(session_id) => Some(ControlView::StopSession { session_id }),
                    None => None,
                }
            } else if tag == "park_session"@ {
                match session {
                    Some(session_id) => Some(ControlView::ParkSession { session_id }),
                    None => None,
                }
            } else if tag == "migrate_session"@ {
                match (session, v.text_field("target_node"@)) {
                    (Some(session_id), Some(target_node)) => Some(
                        ControlView::MigrateSession { session_id, target_node },
                    ),
                    _ => None,
                }
            } else if tag == "capture_snapshot"@ {
                match v.text_field("snapshot_id"@) {
                    Some(snapshot_id) => Some(ControlView::CaptureSnapshot { snapshot_id }),
                    None => None,
                }
            } else if tag == "surface_inventory"@ {
                match v.list_field("surfaces"@) {
                    Some(items) => match surfaces_of_list(items) {
                        Some(surfaces) => Some(ControlView::SurfaceInventory { surfaces }),
                        None => None,
                    },
                    None => None,
                }
            } else if tag == "resume_session"@ {
                match session {
                    Some(session_id) => Some(ControlView::ResumeSession { session_id }),
                    None => None,
                }
            } else if tag == "create_session"@ {
                match (session, optional_text(v.field("label"@))) {
                    (Some(session_id), Some(label)) => Some(
                        ControlView::CreateSession { session_id, label },
                    ),
                    _ => None,
                }
            } else if tag == "oobe_input"@ {
                match (v.text_field("step"@), v.field("value"@)) {
                    (Some(step), Some(value)) => Some(ControlView::OobeInput { step, value }),
                    _ => None,
                }
            } else if tag == "lock_session"@ {
                match session {
                    Some(session_id) => Some(ControlView::LockSession { session_id }),
                    None => None,
                }
            } else if tag == "unlock_session"@ {
                match (session, optional_text(v.field("pin"@))) {
                    (Some(session_id), Some(pin)) => Some(
                        ControlView::UnlockSession { session_id, pin },
                    ),
                    _ => None,
                }
            } else {
                None
            }
        },
    }
}

fn read_small(v: &Json, name: &str) -> (n: Option<i32>)
    ensures
        n == small_integer(v@.field(name@)),
{
    match v.get(name) {
        Some(Json::Number(JsonNumber::Natural(n))) => if *n <= 0x7fff_ffff {
            Some(*n as i32)
        } else {
            None
        },
        Some(Json::Number(JsonNumber::Negative(n))) => if -0x8000_0000 <= *n && *n
            <= 0x7fff_ffff {
            Some(*n as i32)
        } else {
            None
        },
        _ => None,
    }
}

fn read_optional(v: &Json, name: &str) -> (t: Option<Option<String>>)
    ensures
        (match t {
            Some(o) => Some(text::opt_view(o)),
            None => None,
        }) == optional_text(v@.field(name@)),
{
    match v.get(name) {
        None => Some(None),
        Some(Json::Null) => Some(None),
        Some(Json::Text(t)) => Some(Some(t.clone())),
        _ => None,
    }
}

impl SurfaceInfo {
    /// The surface that a document stands for.
    pub fn from_json(v: &Json) -> (info: Option<SurfaceInfo>)
        ensures
            (match info {
                Some(s) => Some(s@),
                None => None,
            }) == surface_of_json(v@),
    {
        let names: Vec<&'static str> = vec!["app_id", "title", "x", "y", "w", "h", "focused"];
        assert(names@ =~= surface_fields());
        let named = v.with_names(&names);
        let v = &named;
        match (
            v.get_text("app_id"),
            v.get_text("title"),
            read_small(v, "x"),
            read_small(v, "y"),
            read_small(v, "w"),
            read_small(v, "h"),
            v.get_bool("focused"),
        ) {
            (Some(app_id), Some(title), Some(x), Some(y), Some(w), Some(h), Some(focused)) => Some(
                SurfaceInfo { app_id, title, x, y, w, h, focused },
            ),
            _ => None,
        }
    }
}

proof fn lemma_surfaces_fail(items: Seq<JsonView>, at: int)
    requires
        0 <= at < items.len(),
        surface_of_json(items[at]) is None,
    ensures
        surfaces_of_list(items) is None,
    decreases items.len(),
{
    if at < items.len() - 1 {
        assert(items.drop_last()[at] == items[at]);
        lemma_surfaces_fail(items.drop_last(), at);
    }
}

fn read_surfaces(items: &Vec<Json>) -> (surfaces: Option<Vec<SurfaceInfo>>)
    ensures
        (match surfaces {
            Some(list) => Some(Seq::new(list@.len(), |i: int| list@[i]@)),
            None => None,
        }) == surfaces_of_list(json::items_view(items@)),
{
    let ghost all = json::items_view(items@);
    proof {
        json::lemma_items_view(items@);
    }
    let mut list: Vec<SurfaceInfo> = Vec::new();
    let mut i: usize = 0;
    assert(all.take(0) =~= Seq::<JsonView>::empty());
    assert(Seq::new(list@.len(), |i: int| list@[i]@) =~= Seq::<SurfaceInfoView>::empty());
    while i < items.len()
        invariant
            i <= items.len(),
            all == json::items_view(items@),
            all.len() == items.len(),
            forall|k: int| 0 <= k < items.len() ==> all[k] == (#[trigger] items@[k])@,
            surfaces_of_list(all.take(i as int)) == Some(
                Seq::new(list@.len(), |i: int| list@[i]@),
            ),
        decreases items.len() - i,
    {
        assert(all.take(i + 1).drop_last() =~= all.take(i as int));
        match SurfaceInfo::from_json(&items[i]) {
            Some(s) => {
                let ghost before = Seq::new(list@.len(), |i: int| list@[i]@);
                list.push(s);
                assert(Seq::new(list@.len(), |i: int| list@[i]@) =~= before.push(s@));
            },
            None => {
                proof {
                    lemma_surfaces_fail(all, i as int);
                }
                return None;
            },
        }
        i += 1;
    }
    assert(all.take(i as int) =~= all);
    Some(list)
}

fn read_mode(name: &str) -> (mode: Option<ControlMode>)
    ensures
        mode == mode_of(name@),
{
    if text::same_text(name, "bypass_permissions") {
        Some(ControlMode::BypassPermissions)
    } else if text::same_text(name, "agent_mode") {
        Some(ControlMode::AgentMode)
    } else if text::same_text(name, "assisted_mode") {
        Some(ControlMode::AssistedMode)
    } else if text::same_text(name, "human_mode") {
        Some(ControlMode::HumanMode)
    } else {
        None
    }
}

fn read_plain_approval(name: &str) -> (decision: Option<ApprovalDecision>)
    ensures
        (match decision {
            Some(d) => Some(d@),
            None => None,
        }) == plain_approval(name@),
{
    if text::same_text(name, "approved") {
        Some(ApprovalDecision::Approved)
    } else if text::same_text(name, "rejected") {
        Some(ApprovalDecision::Rejected)
    } else {
        None
    }
}

fn read_approval(v: &Json) -> (decision: Option<ApprovalDecision>)
    ensures
        (match decision {
            Some(d) => Some(d@),
            None => None,
        }) == approval_of_json(v@),
{
    match v {
        Json::Text(name) => read_plain_approval(name.as_str()),
        _ => match v.single_field() {
            Some((name, value)) => if text::same_text(name.as_str(), "redirected") {
                match value.get_text("new_intent") {
                    Some(new_intent) => Some(ApprovalDecision::Redirected { new_intent }),
                    None => None,
                }
            } else if matches!(value, Json::Null) {
                read_plain_approval(name.as_str())
            } else {
                None
            },
            None => None,
        },
    }
}

/// The message in an optional message.
pub open spec fn opt_control(m: Option<ControlMessage>) -> Option<ControlView> {
    match m {
        Some(c) => Some(c@),
        None => None,
    }
}

impl ControlMessage {
    /// The message that a document stands for.
    pub fn from_json(v: &Json) -> (message: Option<ControlMessage>)
        ensures
            opt_control(message) == control_of_json(v@),
    {
        let tag_text = match v.get_text("type") {
            Some(t) => t,
            None => {
                return None;
            },
        };
        let tag = tag_text.as_str();
        let session = v.get_text("session_id");
        if text::same_text(tag, "user_input") {
            match v.get_text("text") {
                Some(text) => Some(ControlMessage::UserInput { text }),
                None => None,
            }
        } else if text::same_text(tag, "mode_change") {
            match v.get_text("mode") {
                Some(name) => match read_mode(name.as_str()) {
                    Some(mode) => Some(ControlMessage::ModeChange { mode }),
                    None => None,
                },
                None => None,
            }
        } else if text::same_text(tag, "approval_response") {
            match (v.get_text("request_id"), v.get("decision")) {
                (Some(request_id), Some(d)) => match read_approval(d) {
                    Some(decision) => Some(
                        ControlMessage::ApprovalResponse { request_id, decision },
                    ),
                    None => None,
                },
                _ => None,
            }
        } else if text::same_text(tag, "stop_session") {
            match session {
                Some(session_id) => Some(ControlMessage::StopSession { session_id }),
                None => None,
            }
        } else if text::same_text(tag, "park_session") {
            match session {
                Some(session_id) => Some(ControlMessage::ParkSession { session_id }),
                None => None,
            }
        } else if text::same_text(tag, "migrate_session") {
            match (session, v.get_text("target_node")) {
                (Some(session_id), Some(target_node)) => Some(
                    ControlMessage::MigrateSession { session_id, target_node },
                ),
                _ => None,
            }
        } else if text::same_text(tag, "capture_snapshot") {
            match v.get_text("snapshot_id") {
                Some(snapshot_id) => Some(ControlMessage::CaptureSnapshot { snapshot_id }),
                None => None,
            }
        } else if text::same_text(tag, "surface_inventory") {
            match v.get_list("surfaces") {
                Some(items) => match read_surfaces(items) {
                    Some(surfaces) => Some(ControlMessage::SurfaceInventory { surfaces }),
                    None => None,
                },
                None => None,
            }
        } else if text::same_text(tag, "resume_session") {
            match session {
                Some(session_id) => Some(ControlMessage::ResumeSession { session_id }),
                None => None,
            }
        } else if text::same_text(tag, "create_session") {
            match (session, read_optional(v, "label")) {
                (Some(session_id), Some(label)) => Some(
                    ControlMessage::CreateSession { session_id, label },
                ),
                _ => None,
            }
        } else if text::same_text(tag, "oobe_input") {
            match (v.get_text("step"), v.get("value")) {
                (Some(step), Some(value)) => Some(
                    ControlMessage::OobeInput { step, value: value.copy() },
                ),
                _ => None,
            }
        } else if text::same_text(tag, "lock_session") {
            match session {
                Some(session_id) => Some(ControlMessage::LockSession { session_id }),
                None => None,
            }
        } else if text::same_text(tag, "unlock_session") {
            match (session, read_optional(v, "pin")) {
                (Some(session_id), Some(pin)) => Some(
                    ControlMessage::UnlockSession { session_id, pin },
                ),
                _ => None,
            }
        } else {
            None
        }
    }
}

// ---------------------------------------------------------------------------
// What is written can be read
// ---------------------------------------------------------------------------

proof fn lemma_surface_comes_back(s: SurfaceInfoView)
    ensures
        surface_of_json(surface_json(s)) == Some(s),
{
    reveal_strlit("app_id");
    reveal_strlit("title");
    reveal_strlit("x");
    reveal_strlit("y");
    reveal_strlit("w");
    reveal_strlit("h");
    reveal_strlit("focused");
    assert("app_id"@.len() == 6 && "title"@.len() == 5 && "focused"@.len() == 7);
    assert("x"@.len() == 1 && "x"@[0] == 'x');
    assert("y"@.len() == 1 && "y"@[0] == 'y');
    assert("w"@.len() == 1 && "w"@[0] == 'w');
    assert("h"@.len() == 1 && "h"@[0] == 'h');
}

proof fn lemma_surfaces_come_back(surfaces: Seq<SurfaceInfoView>)
    ensures
        surfaces_of_list(Seq::new(surfaces.len(), |i: int| surface_json(surfaces[i]))) == Some(
            surfaces,
        ),
    decreases surfaces.len(),
{
    let items = Seq::new(surfaces.len(), |i: int| surface_json(surfaces[i]));
    if surfaces.len() == 0 {
        assert(surfaces =~= Seq::<SurfaceInfoView>::empty());
    } else {
        let rest = surfaces.drop_last();
        lemma_surfaces_come_back(rest);
        lemma_surface_comes_back(surfaces.last());
        assert(items.drop_last() =~= Seq::new(rest.len(), |i: int| surface_json(rest[i])));
        assert(surfaces =~= rest.push(surfaces.last()));
    }
}

proof fn lemma_approval_comes_back(a: ApprovalView)
    ensures
        approval_of_json(approval_json(a)) == Some(a),
{
    reveal_strlit("approved");
    reveal_strlit("rejected");
    assert("approved"@.len() == 8 && "approved"@[0] == 'a');
    assert("rejected"@.len() == 8 && "rejected"@[0] == 'r');
    if let ApprovalView::Redirected(new_intent) = a {
        let v = approval_json(a);
        assert(v->Object_0.dom() =~= set!["redirected"@]);
        json::lemma_only_field(v, "redirected"@);
    }
}

/// A message written as JSON reads back as itself.
pub proof fn lemma_control_comes_back(m: ControlView)
    ensures
        control_of_json(control_json(m)) == Some(m),
{
    reveal_strlit("user_input");
    reveal_strlit("mode_change");
    reveal_strlit("approval_response");
    reveal_strlit("stop_session");
    reveal_strlit("park_session");
    reveal_strlit("migrate_session");
    reveal_strlit("capture_snapshot");
    reveal_strlit("surface_inventory");
    reveal_strlit("resume_session");
    reveal_strlit("create_session");
    reveal_strlit("oobe_input");
    reveal_strlit("lock_session");
    reveal_strlit("unlock_session");
    assert("user_input"@.len() == 10 && "user_input"@[0] == 'u');
    assert("mode_change"@.len() == 11);
    assert("approval_response"@.len() == 17 && "approval_response"@[0] == 'a');
    assert("stop_session"@.len() == 12 && "stop_session"@[0] == 's');
    assert("park_session"@.len() == 12 && "park_session"@[0] == 'p');
    assert("migrate_session"@.len() == 15);
    assert("capture_snapshot"@.len() == 16);
    assert("surface_inventory"@.len() == 17 && "surface_inventory"@[0] == 's');
    assert("resume_session"@.len() == 14 && "resume_session"@[0] == 'r');
    assert("create_session"@.len() == 14 && "create_session"@[0] == 'c');
    assert("oobe_input"@.len() == 10 && "oobe_input"@[0] == 'o');
    assert("lock_session"@.len() == 12 && "lock_session"@[0] == 'l');
    assert("unlock_session"@.len() == 14 && "unlock_session"@[0] == 'u');
    reveal_strlit("type");
    reveal_strlit("text");
    reveal_strlit("mode");
    reveal_strlit("request_id");
    reveal_strlit("decision");
    reveal_strlit("session_id");
    reveal_strlit("target_node");
    reveal_strlit("snapshot_id");
    reveal_strlit("surfaces");
    reveal_strlit("label");
    reveal_strlit("step");
    reveal_strlit("value");
    reveal_strlit("pin");
    assert("type"@.len() == 4 && "type"@[0] == 't' && "type"@[1] == 'y');
    assert("text"@.len() == 4 && "text"@[1] == 'e');
    assert("mode"@.len() == 4 && "mode"@[0] == 'm');
    assert("request_id"@.len() == 10);
    assert("decision"@.len() == 8);
    assert("session_id"@.len() == 10);
    assert("target_node"@.len() == 11);
    assert("snapshot_id"@.len() == 11);
    assert("surfaces"@.len() == 8);
    assert("label"@.len() == 5);
    assert("step"@.len() == 4 && "step"@[0] == 's');
    assert("value"@.len() == 5);
    assert("pin"@.len() == 3);
    match m {
        ControlView::ModeChange { mode } => {
            lemma_mode_comes_back(mode);
        },
        ControlView::ApprovalResponse { request_id, decision } => {
            lemma_approval_comes_back(decision);
        },
        ControlView::SurfaceInventory { surfaces } => {
            lemma_surfaces_come_back(surfaces);
        },
        _ => {},
    }
}

proof fn lemma_mode_comes_back(m: ControlMode)
    ensures
        mode_of(m.wire()) == Some(m),
{
    if mode_of(m.wire()) is Some {
        let other = mode_of(m.wire())->0;
        mode::lemma_wire_names_differ(m, other);
    }
}

/// Each message is an object that names its kind under `type` and carries each of its parts
/// under the part's own name.
pub proof fn lemma_control_on_the_wire(m: ControlView)
    ensures
        control_json(m) matches JsonView::Object(o) && {
            let kind = o["type"@];
            match m {
                ControlView::UserInput { text } => {
                    &&& kind == JsonView::Text("user_input"@)
                    &&& o["text"@] == JsonView::Text(text)
                },
                ControlView::ModeChange { mode } => {
                    &&& kind == JsonView::Text("mode_change"@)
                    &&& o["mode"@] == JsonView::Text(
                        match mode {
                            ControlMode::BypassPermissions => "bypass_permissions"@,
                            ControlMode::AgentMode => "agent_mode"@,
                            ControlMode::AssistedMode => "assisted_mode"@,
                            ControlMode::HumanMode => "human_mode"@,
                        },
                    )
                },
                ControlView::ApprovalResponse { request_id, decision } => {
                    &&& kind == JsonView::Text("approval_response"@)
                    &&& o["request_id"@] == JsonView::Text(request_id)
                    &&& match decision {
                        ApprovalView::Approved => o["decision"@] == JsonView::Text("approved"@),
                        ApprovalView::Rejected => o["decision"@] == JsonView::Text("rejected"@),
                        ApprovalView::Redirected(t) => o["decision"@] == JsonView::Object(
                            map![
                                "redirected"@ => JsonView::Object(
                                    map!["new_intent"@ => JsonView::Text(t)],
                                ),
                            ],
                        ),
                    }
                },
                ControlView::StopSession { session_id } => {
                    &&& kind == JsonView::Text("stop_session"@)
                    &&& o["session_id"@] == JsonView::Text(session_id)
                },
                ControlView::ParkSession { session_id } => {
                    &&& kind == JsonView::Text("park_session"@)
                    &&& o["session_id"@] == JsonView::Text(session_id)
                },
                ControlView::MigrateSession { session_id, target_node } => {
                    &&& kind == JsonView::Text("migrate_session"@)
                    &&& o["session_id"@] == JsonView::Text(session_id)
                    &&& o["target_node"@] == JsonView::Text(target_node)
                },
                ControlView::CaptureSnapshot { snapshot_id } => {
                    &&& kind == JsonView::Text("capture_snapshot"@)
                    &&& o["snapshot_id"@] == JsonView::Text(snapshot_id)
                },
                ControlView::SurfaceInventory { surfaces } => {
                    &&& kind == JsonView::Text("surface_inventory"@)
                    &&& o["surfaces"@] matches JsonView::Array(items) && items.len()
                        == surfaces.len() && forall|i: int|
                        #![trigger surfaces[i]]
                        0 <= i < surfaces.len() ==> items[i] == surface_json(surfaces[i])
                },
                ControlView::ResumeSession { session_id } => {
                    &&& kind == JsonView::Text("resume_session"@)
                    &&& o["session_id"@] == JsonView::Text(session_id)
                },
                ControlView::CreateSession { session_id, label } => {
                    &&& kind == JsonView::Text("create_session"@)
                    &&& o["session_id"@] == JsonView::Text(session_id)
                    &&& o["label"@] == match label {
                        Some(t) => JsonView::Text(t),
                        None => JsonView::Null,
                    }
                },
                ControlView::OobeInput { step, value } => {
                    &&& kind == JsonView::Text("oobe_input"@)
                    &&& o["step"@] == JsonView::Text(step)
                    &&& o["value"@] == value
                },
                ControlView::LockSession { session_id } => {
                    &&& kind == JsonView::Text("lock_session"@)
                    &&& o["session_id"@] == JsonView::Text(session_id)
                },
                ControlView::UnlockSession { session_id, pin } => {
                    &&& kind == JsonView::Text("unlock_session"@)
                    &&& o["session_id"@] == JsonView::Text(session_id)
                    &&& o["pin"@] == match pin {
                        Some(t) => JsonView::Text(t),
                        None => JsonView::Null,
                    }
                },
            }
        },
{
    reveal_strlit("type");
    reveal_strlit("text");
    reveal_strlit("mode");
    reveal_strlit("request_id");
    reveal_strlit("decision");
    reveal_strlit("session_id");
    reveal_strlit("target_node");
    reveal_strlit("snapshot_id");
    reveal_strlit("surfaces");
    reveal_strlit("label");
    reveal_strlit("step");
    reveal_strlit("value");
    reveal_strlit("pin");
    assert("type"@[1] != "text"@[1]);
    assert("type"@[0] != "mode"@[0]);
    assert("type"@[0] != "step"@[0]);
    assert("request_id"@.len() == 10 && "decision"@.len() == 8 && "session_id"@.len() == 10
        && "target_node"@.len() == 11 && "snapshot_id"@.len() == 11 && "surfaces"@.len() == 8
        && "label"@.len() == 5 && "step"@.len() == 4 && "value"@.len() == 5 && "pin"@.len() == 3
        && "type"@.len() == 4);
    if let ControlView::ApprovalResponse { request_id, decision } = m {
        if let ApprovalView::Redirected(t) = decision {
            let inner = map!["new_intent"@ => JsonView::Text(t)];
            assert(inner =~= Map::empty().insert("new_intent"@, JsonView::Text(t)));
            assert(map!["redirected"@ => JsonView::Object(inner)] =~= Map::empty().insert(
                "redirected"@,
                JsonView::Object(inner),
            ));
        }
    }
}

/// A surface is an object with each of its parts under the part's own name.
pub proof fn lemma_surface_on_the_wire(s: SurfaceInfoView)
    ensures
        surface_json(s) matches JsonView::Object(o) && {
            &&& o["app_id"@] == JsonView::Text(s.app_id)
            &&& o["title"@] == JsonView::Text(s.title)
            &&& o["x"@] == json::integer(s.x as i64)
            &&& o["y"@] == json::integer(s.y as i64)
            &&& o["w"@] == json::integer(s.w as i64)
            &&& o["h"@] == json::integer(s.h as i64)
            &&& o["focused"@] == JsonView::Bool(s.focused)
        },
{
    reveal_strlit("app_id");
    reveal_strlit("title");
    reveal_strlit("x");
    reveal_strlit("y");
    reveal_strlit("w");
    reveal_strlit("h");
    reveal_strlit("focused");
    assert("x"@[0] != "y"@[0] && "x"@[0] != "w"@[0] && "x"@[0] != "h"@[0] && "y"@[0] != "w"@[0]
        && "y"@[0] != "h"@[0] && "w"@[0] != "h"@[0]);
    assert("app_id"@.len() == 6 && "title"@.len() == 5 && "focused"@.len() == 7);
}

} // verus!
