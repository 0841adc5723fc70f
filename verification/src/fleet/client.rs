//! What a node tells the fleet, and where.

use vstd::prelude::*;
use crate::json;
use crate::json::Json;
use crate::json::JsonView;
use crate::text;

verus! {

/// A node and where its fleet is.
pub struct FleetClient {
    pub base_url: String,
    pub node_id: String,
    /// Binds the node to its owner.
    pub token: Option<String>,
    pub flavor: String,
    pub os_version: String,
    pub name: Option<String>,
}

/// What a node is.
#[verifier::ext_equal]
pub struct NodeView {
    pub base_url: Seq<char>,
    pub node_id: Seq<char>,
    pub token: Option<Seq<char>>,
    pub flavor: Seq<char>,
    pub os_version: Seq<char>,
    pub name: Option<Seq<char>>,
}

impl View for FleetClient {
    type V = NodeView;

    open spec fn view(&self) -> NodeView {
        NodeView {
            base_url: self.base_url@,
            node_id: self.node_id@,
            token: text::opt_view(self.token),
            flavor: self.flavor@,
            os_version: self.os_version@,
            name: text::opt_view(self.name),
        }
    }
}

/// The members of an object with two texts.
pub open spec fn two_texts(
    a: Seq<char>,
    x: Seq<char>,
    b: Seq<char>,
    y: Seq<char>,
) -> Map<Seq<char>, JsonView> {
    Map::empty().insert(a, JsonView::Text(x)).insert(b, JsonView::Text(y))
}

/// What a node says of itself.
pub open spec fn identity_json(n: NodeView) -> JsonView {
    let members = two_texts("flavor"@, n.flavor, "os_version"@, n.os_version);
    JsonView::Object(
        match n.name {
            Some(name) => members.insert("name"@, JsonView::Text(name)),
            None => members,
        },
    )
}

/// A session that is on its way to this node: its id and its bundle.
pub struct PendingItem {
    pub session_id: String,
    pub bundle: Json,
}

/// What a pending session is.
#[verifier::ext_equal]
pub struct PendingView {
    pub session_id: Seq<char>,
    pub bundle: JsonView,
}

impl View for PendingItem {
    type V = PendingView;

    open spec fn view(&self) -> PendingView {
        PendingView { session_id: self.session_id@, bundle: self.bundle@ }
    }
}

/// What a list of pending sessions holds.
pub open spec fn pending_list(items: Seq<PendingItem>) -> Seq<PendingView> {
    Seq::new(items.len(), |i: int| items[i]@)
}

/// The members of a pending session.
pub open spec fn pending_fields() -> Seq<&'static str> {
    seq!["session_id", "bundle"]
}

/// The pending session that a document holds, by the names of its members or by their places.
pub open spec fn pending_of_json(v: JsonView) -> Option<PendingView> {
    let v = json::named(v, pending_fields());
    match (v.text_field("session_id"@), v.field("bundle"@)) {
        (Some(session_id), Some(bundle)) => Some(PendingView { session_id, bundle }),
        _ => None,
    }
}

/// The pending sessions that a list of documents holds, where each holds one.
pub open spec fn pending_of_list(items: Seq<JsonView>) -> Option<Seq<PendingView>>
    decreases items.len(),
{
    if items.len() == 0 {
        Some(Seq::empty())
    } else {
        match (pending_of_list(items.drop_last()), pending_of_json(items.last())) {
            (Some(before), Some(p)) => Some(before.push(p)),
            _ => None,
        }
    }
}

proof fn lemma_pending_fail(items: Seq<JsonView>, at: int)
    requires
        0 <= at < items.len(),
        pending_of_json(items[at]) is None,
    ensures
        pending_of_list(items) is None,
    decreases items.len(),
{
    if at < items.len() - 1 {
        assert(items.drop_last()[at] == items[at]);
        lemma_pending_fail(items.drop_last(), at);
    }
}

/// The pending sessions in the fleet's answer.
pub fn read_pending(answer: &Json) -> (items: Option<Vec<PendingItem>>)
    ensures
        (match items {
            Some(list) => Some(pending_list(list@)),
            None => None,
        }) == (match answer@ {
            JsonView::Array(items) => pending_of_list(items),
            _ => None,
        }),
{
    let items = match answer {
        Json::Array(items) => items,
        _ => {
            return None;
        },
    };
    let ghost all = json::items_view(items@);
    proof {
        json::lemma_items_view(items@);
    }
    let mut list: Vec<PendingItem> = Vec::new();
    let mut i: usize = 0;
    assert(all.take(0) =~= Seq::<JsonView>::empty());
    assert(pending_list(list@) =~= Seq::<PendingView>::empty());
    while i < items.len()
        invariant
            i <= items.len(),
            answer@ == JsonView::Array(all),
            all == json::items_view(items@),
            all.len() == items.len(),
            forall|k: int| 0 <= k < items.len() ==> all[k] == (#[trigger] items@[k])@,
            pending_of_list(all.take(i as int)) == Some(pending_list(list@)),
        decreases items.len() - i,
    {
        assert(all.take(i + 1).drop_last() =~= all.take(i as int));
        assert(all[i as int] == items@[i as int]@);
        let names: Vec<&'static str> = vec!["session_id", "bundle"];
        assert(names@ =~= pending_fields());
        let named = items[i].with_names(&names);
        match (named.get_text("session_id"), named.get("bundle")) {
            (Some(session_id), Some(bundle)) => {
                let item = PendingItem { session_id, bundle: bundle.copy() };
                let ghost before = pending_list(list@);
                list.push(item);
                assert(pending_list(list@) =~= before.push(item@));
            },
            _ => {
                proof {
                    lemma_pending_fail(all, i as int);
                }
                return None;
            },
        }
        i += 1;
    }
    assert(all.take(i as int) =~= all);
    Some(list)
}

fn path_of(a: &str, b: &str, c: &str) -> (path: String)
    ensures
        path@ == a@ + b@ + c@,
{
    let mut path = a.to_string();
    path.append(b);
    path.append(c);
    path
}

impl FleetClient {
    /// A node without an owner and a name.
    pub fn new(base_url: &str, node_id: &str) -> (client: Self)
        ensures
            client@ == (NodeView {
                base_url: base_url@,
                node_id: node_id@,
                token: None,
                flavor: "desktop"@,
                os_version: "0.1.0"@,
                name: None,
            }),
    {
        FleetClient {
            base_url: base_url.to_string(),
            node_id: node_id.to_string(),
            token: None,
            flavor: "desktop".to_string(),
            os_version: "0.1.0".to_string(),
            name: None,
        }
    }

    /// The node bound to its owner.
    pub fn with_token(self, token: &str) -> (client: Self)
        ensures
            client@ == (NodeView { token: Some(token@), ..self@ }),
    {
        FleetClient { token: Some(token.to_string()), ..self }
    }

    /// The node with what it says of itself.
    pub fn with_identity(self, flavor: &str, os_version: &str, name: Option<String>) -> (client: Self)
        ensures
            client@ == (NodeView {
                flavor: flavor@,
                os_version: os_version@,
                name: text::opt_view(name),
                ..self@
            }),
    {
        FleetClient {
            flavor: flavor.to_string(),
            os_version: os_version.to_string(),
            name,
            ..self
        }
    }

    /// The name of the node in the fleet.
    pub fn node_id(&self) -> (id: &str)
        ensures
            id@ == self@.node_id,
    {
        self.node_id.as_str()
    }

    /// The flavour of the node.
    pub fn flavor(&self) -> (flavor: &str)
        ensures
            flavor@ == self@.flavor,
    {
        self.flavor.as_str()
    }

    /// The version of its system.
    pub fn os_version(&self) -> (version: &str)
        ensures
            version@ == self@.os_version,
    {
        self.os_version.as_str()
    }

    /// The address of a path.
    pub fn url(&self, path: &str) -> (url: String)
        ensures
            url@ == self@.base_url + path@,
    {
        self.base_url.clone().concat(path)
    }

    /// Where the node registers.
    pub fn register_path(&self) -> (path: String)
        ensures
            path@ == "/v1/fleet/nodes/"@ + self@.node_id + "/register"@,
    {
        path_of("/v1/fleet/nodes/", self.node_id.as_str(), "/register")
    }

    /// What the node sends to register.
    pub fn register_body(&self) -> (body: Json)
        ensures
            body@ == identity_json(self@),
    {
        let body = Json::object().with("flavor", Json::of_text(self.flavor.as_str())).with(
            "os_version",
            Json::of_text(self.os_version.as_str()),
        );
        match &self.name {
            Some(name) => body.with("name", Json::of_text(name.as_str())),
            None => body,
        }
    }

    /// What a node sends to register with a flavour and a version.
    pub fn register_as(flavor: &str, os_version: &str) -> (body: Json)
        ensures
            body@ == JsonView::Object(two_texts("flavor"@, flavor@, "os_version"@, os_version@)),
    {
        Json::object().with("flavor", Json::of_text(flavor)).with(
            "os_version",
            Json::of_text(os_version),
        )
    }

    /// Where a session is sent from.
    pub fn migrate_path(session_id: &str) -> (path: String)
        ensures
            path@ == "/v1/fleet/sessions/"@ + session_id@ + "/migrate"@,
    {
        path_of("/v1/fleet/sessions/", session_id, "/migrate")
    }

    /// What is sent to move a session.
    pub fn migrate_body(bundle: Json, target_node_id: &str) -> (body: Json)
        ensures
            body@ == JsonView::Object(
                Map::empty().insert("bundle"@, bundle@).insert(
                    "target_node_id"@,
                    JsonView::Text(target_node_id@),
                ),
            ),
    {
        Json::object().with("bundle", bundle).with(
            "target_node_id",
            Json::of_text(target_node_id),
        )
    }

    /// Where the sessions for this node are.
    pub fn migrations_path(&self) -> (path: String)
        ensures
            path@ == "/v1/fleet/nodes/"@ + self@.node_id + "/migrations"@,
    {
        path_of("/v1/fleet/nodes/", self.node_id.as_str(), "/migrations")
    }

    /// Where the arrival of a session is told.
    pub fn complete_path(session_id: &str) -> (path: String)
        ensures
            path@ == "/v1/fleet/sessions/"@ + session_id@ + "/migrate/complete"@,
    {
        path_of("/v1/fleet/sessions/", session_id, "/migrate/complete")
    }

    /// What is sent to tell the arrival of a session.
    pub fn complete_body(new_node_id: &str) -> (body: Json)
        ensures
            body@ == JsonView::Object(
                Map::empty().insert("new_node_id"@, JsonView::Text(new_node_id@)),
            ),
    {
        Json::object().with("new_node_id", Json::of_text(new_node_id))
    }

    /// Where one session for this node is.
    pub fn pending_path(&self, session_id: &str) -> (path: String)
        ensures
            path@ == "/v1/fleet/nodes/"@ + self@.node_id + "/migrations/"@ + session_id@,
    {
        let mut path = path_of("/v1/fleet/nodes/", self.node_id.as_str(), "/migrations/");
        path.append(session_id);
        path
    }
}

/// How often a node tells that it is alive, in seconds.
pub const HEARTBEAT_SECS: u64 = 60;

} // verus!
