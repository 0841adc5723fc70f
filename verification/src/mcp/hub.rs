//! The hub: which artifacts are connected, what tools they offer, and where a
//! call goes.

use vstd::prelude::*;
use crate::agent::error::Error;
use crate::agent::error::ErrorView;
use crate::agent::provider::ToolSpec;
use crate::agent::provider::ToolSpecView;
use crate::agent::tool::ToolRegistry;
use crate::json;
use crate::json::Json;
use crate::json::JsonView;
use crate::sorted_map;
use crate::sorted_map::SortedMap;
use crate::text;

verus! {

// ---------------------------------------------------------------------------
// Tools on the wire
// ---------------------------------------------------------------------------

/// A tool that an artifact offers.
pub struct McpToolSpec {
    pub name: String,
    pub description: String,
    pub input_schema: Json,
}

impl View for McpToolSpec {
    type V = ToolSpecView;

    open spec fn view(&self) -> ToolSpecView {
        ToolSpecView {
            name: self.name@,
            description: self.description@,
            input_schema: self.input_schema@,
        }
    }
}

/// What a list of tools holds.
pub open spec fn tools_view(tools: Seq<McpToolSpec>) -> Seq<ToolSpecView> {
    Seq::new(tools.len(), |i: int| tools[i]@)
}

/// The document of a tool.
pub open spec fn tool_json(t: ToolSpecView) -> JsonView {
    JsonView::Object(
        Map::empty().insert("name"@, JsonView::Text(t.name)).insert(
            "description"@,
            JsonView::Text(t.description),
        ).insert("input_schema"@, t.input_schema),
    )
}

/// The tool that a document holds: an object with the three members, or a list of
/// the three values.
pub open spec fn tool_of_json(v: JsonView) -> Option<ToolSpecView> {
    match v {
        JsonView::Object(m) => match (
            v.text_field("name"@),
            v.text_field("description"@),
            v.field("input_schema"@),
        ) {
            (Some(name), Some(description), Some(input_schema)) => Some(
                ToolSpecView { name, description, input_schema },
            ),
            _ => None,
        },
        JsonView::Array(items) => if items.len() == 3 && items[0] is Text && items[1] is Text {
            Some(
                ToolSpecView {
                    name: items[0]->Text_0,
                    description: items[1]->Text_0,
                    input_schema: items[2],
                },
            )
        } else {
            None
        },
        _ => None,
    }
}

/// The tools that a list of documents holds, where each holds one.
pub open spec fn tools_of_list(items: Seq<JsonView>) -> Option<Seq<ToolSpecView>>
    decreases items.len(),
{
    if items.len() == 0 {
        Some(Seq::empty())
    } else {
        match (tools_of_list(items.drop_last()), tool_of_json(items.last())) {
            (Some(before), Some(t)) => Some(before.push(t)),
            _ => None,
        }
    }
}

/// The tools that a document declares: none where it is no list of tools.
pub open spec fn declared(v: JsonView) -> Seq<ToolSpecView> {
    match v {
        JsonView::Array(items) => match tools_of_list(items) {
            Some(tools) => tools,
            None => Seq::empty(),
        },
        _ => Seq::empty(),
    }
}

/// The document of a list of tools.
pub open spec fn tools_json(tools: Seq<ToolSpecView>) -> JsonView {
    JsonView::Array(Seq::new(tools.len(), |i: int| tool_json(tools[i])))
}

/// The tools that were written are declared.
pub proof fn lemma_tools_come_back(tools: Seq<ToolSpecView>)
    ensures
        declared(tools_json(tools)) == tools,
        tools_of_list(tools_json(tools)->Array_0) == Some(tools),
    decreases tools.len(),
{
    let items = tools_json(tools)->Array_0;
    if tools.len() > 0 {
        let t = tools.last();
        lemma_tools_come_back(tools.drop_last());
        assert(items.drop_last() =~= tools_json(tools.drop_last())->Array_0);
        reveal_strlit("name");
        reveal_strlit("description");
        reveal_strlit("input_schema");
        assert("name"@.len() != "description"@.len() && "name"@.len() != "input_schema"@.len()
            && "description"@.len() != "input_schema"@.len());
        assert(tool_of_json(tool_json(t)) == Some(t));
        assert(tools.drop_last().push(t) =~= tools);
    } else {
        assert(tools =~= Seq::empty());
    }
}

proof fn lemma_tools_fail(items: Seq<JsonView>, at: int)
    requires
        0 <= at < items.len(),
        tool_of_json(items[at]) is None,
    ensures
        tools_of_list(items) is None,
    decreases items.len(),
{
    if at < items.len() - 1 {
        assert(items.drop_last()[at] == items[at]);
        lemma_tools_fail(items.drop_last(), at);
    }
}

impl McpToolSpec {
    /// A copy of the tool.
    pub fn copy(&self) -> (tool: Self)
        ensures
            tool@ == self@,
    {
        McpToolSpec {
            name: self.name.clone(),
            description: self.description.clone(),
            input_schema: self.input_schema.copy(),
        }
    }

    /// The document of the tool.
    pub fn to_json(&self) -> (v: Json)
        ensures
            v@ == tool_json(self@),
    {
        Json::object().with("name", Json::of_text(self.name.as_str())).with(
            "description",
            Json::of_text(self.description.as_str()),
        ).with("input_schema", self.input_schema.copy())
    }

    /// The tool that a document holds.
    pub fn from_json(v: &Json) -> (tool: Option<McpToolSpec>)
        ensures
            (match tool {
                Some(t) => Some(t@),
                None => None,
            }) == tool_of_json(v@),
    {
        match v {
            Json::Object(_) => match (
                v.get_text("name"),
                v.get_text("description"),
                v.get("input_schema"),
            ) {
                (Some(name), Some(description), Some(schema)) => Some(
                    McpToolSpec { name, description, input_schema: schema.copy() },
                ),
                _ => None,
            },
            Json::Array(items) => {
                proof {
                    json::lemma_items_view(items@);
                }
                if items.len() != 3 {
                    return None;
                }
                assert(json::items_view(items@)[0] == items@[0]@);
                assert(json::items_view(items@)[1] == items@[1]@);
                assert(json::items_view(items@)[2] == items@[2]@);
                match (&items[0], &items[1]) {
                    (Json::Text(name), Json::Text(description)) => Some(
                        McpToolSpec {
                            name: name.clone(),
                            description: description.clone(),
                            input_schema: items[2].copy(),
                        },
                    ),
                    _ => None,
                }
            },
            _ => None,
        }
    }
}

/// The tools that a document declares.
pub fn read_tools(v: &Json) -> (tools: Vec<McpToolSpec>)
    ensures
        tools_view(tools@) == declared(v@),
{
    let mut list: Vec<McpToolSpec> = Vec::new();
    if let Json::Array(items) = v {
        let ghost all = json::items_view(items@);
        proof {
            json::lemma_items_view(items@);
        }
        let mut i: usize = 0;
        assert(all.take(0) =~= Seq::<JsonView>::empty());
        assert(tools_view(list@) =~= Seq::<ToolSpecView>::empty());
        while i < items.len()
            invariant
                i <= items.len(),
                v@ == JsonView::Array(all),
                all == json::items_view(items@),
                all.len() == items.len(),
                forall|k: int| 0 <= k < items.len() ==> all[k] == (#[trigger] items@[k])@,
                tools_of_list(all.take(i as int)) == Some(tools_view(list@)),
            decreases items.len() - i,
        {
            assert(all.take(i + 1).drop_last() =~= all.take(i as int));
            match McpToolSpec::from_json(&items[i]) {
                Some(t) => {
                    let ghost before = tools_view(list@);
                    list.push(t);
                    assert(tools_view(list@) =~= before.push(t@));
                },
                None => {
                    proof {
                        lemma_tools_fail(all, i as int);
                    }
                    let none: Vec<McpToolSpec> = Vec::new();
                    assert(tools_view(none@) =~= Seq::<ToolSpecView>::empty());
                    return none;
                },
            }
            i += 1;
        }
        assert(all.take(i as int) =~= all);
    }
    assert(v@ !is Array ==> tools_view(list@) =~= Seq::<ToolSpecView>::empty());
    list
}

/// The document of a list of tools.
pub fn write_tools(tools: &Vec<McpToolSpec>) -> (v: Json)
    ensures
        v@ == tools_json(tools_view(tools@)),
{
    let mut items: Vec<Json> = Vec::new();
    let mut i: usize = 0;
    let ghost all = tools_json(tools_view(tools@))->Array_0;
    assert(all.take(0) =~= Seq::<JsonView>::empty());
    while i < tools.len()
        invariant
            i <= tools.len(),
            all == tools_json(tools_view(tools@))->Array_0,
            all.len() == tools.len(),
            json::items_view(items@) == all.take(i as int),
        decreases tools.len() - i,
    {
        let ghost before = items@;
        let item = tools[i].to_json();
        items.push(item);
        assert(items@.drop_last() =~= before);
        assert(all.take(i + 1) =~= all.take(i as int).push(item@));
        i += 1;
    }
    assert(all.take(i as int) =~= all);
    Json::Array(items)
}

/// A copy of a list of tools.
pub fn copy_tools(tools: &Vec<McpToolSpec>) -> (copy: Vec<McpToolSpec>)
    ensures
        tools_view(copy@) == tools_view(tools@),
{
    let mut copy: Vec<McpToolSpec> = Vec::new();
    let mut i: usize = 0;
    while i < tools.len()
        invariant
            i <= tools.len(),
            copy.len() == i,
            forall|k: int| 0 <= k < i ==> (#[trigger] copy@[k])@ == tools@[k]@,
        decreases tools.len() - i,
    {
        copy.push(tools[i].copy());
        i += 1;
    }
    assert(tools_view(copy@) =~= tools_view(tools@));
    copy
}

// ---------------------------------------------------------------------------
// Servers
// ---------------------------------------------------------------------------

/// A connected artifact.
pub struct RegisteredServer {
    pub artifact_id: String,
    pub version: String,
    pub tools: Vec<McpToolSpec>,
}

/// What a connected artifact is.
#[verifier::ext_equal]
pub struct ServerView {
    pub artifact_id: Seq<char>,
    pub version: Seq<char>,
    pub tools: Seq<ToolSpecView>,
}

impl View for RegisteredServer {
    type V = ServerView;

    open spec fn view(&self) -> ServerView {
        ServerView {
            artifact_id: self.artifact_id@,
            version: self.version@,
            tools: tools_view(self.tools@),
        }
    }
}

/// An artifact as a launcher shows it.
pub struct InstalledApp {
    pub artifact_id: String,
    pub version: String,
    /// The names of its tools.
    pub tools: Vec<String>,
}

/// What a launcher shows.
#[verifier::ext_equal]
pub struct AppView {
    pub artifact_id: Seq<char>,
    pub version: Seq<char>,
    pub tools: Seq<Seq<char>>,
}

impl View for InstalledApp {
    type V = AppView;

    open spec fn view(&self) -> AppView {
        AppView {
            artifact_id: self.artifact_id@,
            version: self.version@,
            tools: text::views(self.tools@),
        }
    }
}

/// The names of tools.
pub open spec fn names_of(tools: Seq<ToolSpecView>) -> Seq<Seq<char>> {
    Seq::new(tools.len(), |i: int| tools[i].name)
}

/// What a launcher shows of a server.
pub open spec fn app_of(s: ServerView) -> AppView {
    AppView { artifact_id: s.artifact_id, version: s.version, tools: names_of(s.tools) }
}

/// What a list of shown artifacts holds.
pub open spec fn apps_view(apps: Seq<InstalledApp>) -> Seq<AppView> {
    Seq::new(apps.len(), |i: int| apps[i]@)
}


/// Whether a server offers a tool.
pub open spec fn offers(s: ServerView, tool: Seq<char>) -> bool {
    exists|i: int| 0 <= i < s.tools.len() && (#[trigger] s.tools[i]).name == tool
}

/// The tools of all servers.
pub open spec fn all_tools_of(servers: Seq<(Seq<char>, ServerView)>) -> Seq<ToolSpecView>
    decreases servers.len(),
{
    if servers.len() == 0 {
        Seq::empty()
    } else {
        all_tools_of(servers.drop_last()) + servers.last().1.tools
    }
}

/// The artifact that a call of a tool goes to: the first that offers it.
pub open spec fn route_of(servers: Seq<(Seq<char>, ServerView)>, tool: Seq<char>) -> Option<
    Seq<char>,
>
    decreases servers.len(),
{
    if servers.len() == 0 {
        None
    } else if route_of(servers.drop_last(), tool) is Some {
        route_of(servers.drop_last(), tool)
    } else if offers(servers.last().1, tool) {
        Some(servers.last().1.artifact_id)
    } else {
        None
    }
}

/// The registry of a list of tools: of two with one name the later counts.
pub open spec fn registry_of(tools: Seq<ToolSpecView>) -> Seq<(Seq<char>, ToolSpecView)>
    decreases tools.len(),
{
    if tools.len() == 0 {
        Seq::empty()
    } else {
        sorted_map::put(registry_of(tools.drop_last()), tools.last().name, tools.last())
    }
}

/// The hub.
pub struct McpHub {
    servers: SortedMap<RegisteredServer>,
}

impl View for McpHub {
    type V = Seq<(Seq<char>, ServerView)>;

    closed spec fn view(&self) -> Seq<(Seq<char>, ServerView)> {
        sorted_map::deep(self.servers@)
    }
}

impl Default for McpHub {
    fn default() -> (hub: Self)
        ensures
            hub@ == Seq::<(Seq<char>, ServerView)>::empty(),
    {
        McpHub::new()
    }
}

impl McpHub {
    /// The hub without servers.
    pub fn new() -> (hub: Self)
        ensures
            hub@ == Seq::<(Seq<char>, ServerView)>::empty(),
    {
        let hub = McpHub { servers: SortedMap::new() };
        assert(hub@ =~= Seq::<(Seq<char>, ServerView)>::empty());
        hub
    }

    /// Registers a server, in place of the one that its artifact had.
    pub fn register(&mut self, server: RegisteredServer)
        ensures
            final(self)@ == sorted_map::put(old(self)@, server.artifact_id@, server@),
            sorted_map::ascending(final(self)@),
    {
        let id = server.artifact_id.clone();
        proof {
            sorted_map::lemma_deep_put(self.servers@, id@, server);
        }
        self.servers.insert(id.as_str(), server);
        proof {
            sorted_map::lemma_deep_map(self.servers@);
        }
    }

    /// Takes the server of an artifact out.
    pub fn unregister(&mut self, artifact_id: &str)
        ensures
            final(self)@ == sorted_map::without(old(self)@, artifact_id@),
            sorted_map::ascending(final(self)@),
    {
        proof {
            sorted_map::lemma_deep_without(self.servers@, artifact_id@);
        }
        let _ = self.servers.remove(artifact_id);
        proof {
            sorted_map::lemma_deep_map(self.servers@);
        }
    }

    /// The tools of all servers.
    pub fn all_tools(&self) -> (tools: Vec<McpToolSpec>)
        ensures
            tools_view(tools@) == all_tools_of(self@),
    {
        let n: usize = self.servers.len();
        let ghost all = self@;
        let mut tools: Vec<McpToolSpec> = Vec::new();
        let mut i: usize = 0;
        assert(all.take(0) =~= Seq::<(Seq<char>, ServerView)>::empty());
        assert(tools_view(tools@) =~= Seq::<ToolSpecView>::empty());
        while i < n
            invariant
                i <= n == self.servers@.len(),
                all == self@,
                tools_view(tools@) == all_tools_of(all.take(i as int)),
            decreases n - i,
        {
            let server = self.servers.value_at(i);
            assert(all[i as int].1 == server@);
            assert(all.take(i + 1).drop_last() =~= all.take(i as int));
            let mut more = copy_tools(&server.tools);
            let ghost before = tools@;
            let ghost added = more@;
            tools.append(&mut more);
            assert(tools_view(tools@) =~= tools_view(before) + tools_view(added));
            i += 1;
        }
        assert(all.take(n as int) =~= all);
        tools
    }

    /// What a launcher shows of each artifact.
    pub fn installed_apps(&self) -> (apps: Vec<InstalledApp>)
        ensures
            apps_view(apps@) == Seq::new(self@.len(), |i: int| app_of(self@[i].1)),
    {
        let n: usize = self.servers.len();
        let mut apps: Vec<InstalledApp> = Vec::new();
        let mut i: usize = 0;
        while i < n
            invariant
                i <= n == self.servers@.len(),
                apps.len() == i,
                forall|k: int| 0 <= k < i ==> (#[trigger] apps@[k])@ == app_of(self@[k].1),
            decreases n - i,
        {
            let server = self.servers.value_at(i);
            let mut names: Vec<String> = Vec::new();
            let mut k: usize = 0;
            while k < server.tools.len()
                invariant
                    k <= server.tools.len(),
                    names.len() == k,
                    forall|j: int| 0 <= j < k ==> (#[trigger] names@[j])@ == server.tools@[j]@.name,
                decreases server.tools.len() - k,
            {
                names.push(server.tools[k].name.clone());
                k += 1;
            }
            assert(text::views(names@) =~= names_of(server@.tools));
            apps.push(
                InstalledApp {
                    artifact_id: server.artifact_id.clone(),
                    version: server.version.clone(),
                    tools: names,
                },
            );
            i += 1;
        }
        assert(apps_view(apps@) =~= Seq::new(self@.len(), |i: int| app_of(self@[i].1)));
        apps
    }

    /// The artifact that a call of a tool goes to.
    pub fn route(&self, tool_name: &str) -> (artifact: Result<String, Error>)
        ensures
            match artifact {
                Ok(id) => route_of(self@, tool_name@) == Some(id@),
                Err(e) => route_of(self@, tool_name@) is None && e@ == ErrorView::ToolNotFound(
                    tool_name@,
                ),
            },
    {
        let n: usize = self.servers.len();
        let ghost all = self@;
        let mut i: usize = 0;
        assert(all.take(0) =~= Seq::<(Seq<char>, ServerView)>::empty());
        while i < n
            invariant
                i <= n == self.servers@.len(),
                all == self@,
                route_of(all.take(i as int), tool_name@) is None,
            decreases n - i,
        {
            let server = self.servers.value_at(i);
            assert(all[i as int].1 == server@);
            assert(all.take(i + 1).drop_last() =~= all.take(i as int));
            let mut k: usize = 0;
            while k < server.tools.len()
                invariant
                    k <= server.tools.len(),
                    forall|j: int|
                        0 <= j < k ==> (#[trigger] server@.tools[j]).name != tool_name@,
                    i < n == self.servers@.len(),
                    all == self@,
                    all[i as int].1 == server@,
                    route_of(all.take(i as int), tool_name@) is None,
                    all.take(i + 1).drop_last() == all.take(i as int),
                decreases server.tools.len() - k,
            {
                assert(server@.tools[k as int] == server.tools@[k as int]@);
                if text::same_text(server.tools[k].name.as_str(), tool_name) {
                    proof {
                        lemma_route_stays(all, tool_name@, i + 1);
                    }
                    return Ok(server.artifact_id.clone());
                }
                k += 1;
            }
            i += 1;
        }
        assert(all.take(n as int) =~= all);
        Err(Error::ToolNotFound(tool_name.to_string()))
    }

    /// The registry of all tools as it stands now.
    pub fn build_registry(&self) -> (registry: ToolRegistry)
        ensures
            registry@ == registry_of(all_tools_of(self@)),
    {
        let tools = self.all_tools();
        let ghost all = tools_view(tools@);
        let mut registry = ToolRegistry::new();
        let mut i: usize = 0;
        assert(all.take(0) =~= Seq::<ToolSpecView>::empty());
        while i < tools.len()
            invariant
                i <= tools.len(),
                all == tools_view(tools@),
                registry@ == registry_of(all.take(i as int)),
            decreases tools.len() - i,
        {
            assert(all.take(i + 1).drop_last() =~= all.take(i as int));
            let tool = ToolSpec {
                name: tools[i].name.clone(),
                description: tools[i].description.clone(),
                input_schema: tools[i].input_schema.copy(),
            };
            assert(tool@ == all[i as int]);
            registry.register(tool);
            i += 1;
        }
        assert(all.take(i as int) =~= all);
        registry
    }

    /// How many servers are connected.
    pub fn server_count(&self) -> (n: usize)
        ensures
            n == self@.len(),
    {
        self.servers.len()
    }
}

// ---------------------------------------------------------------------------
// What the hub promises
// ---------------------------------------------------------------------------

proof fn lemma_route_stays(servers: Seq<(Seq<char>, ServerView)>, tool: Seq<char>, n: int)
    requires
        0 <= n <= servers.len(),
        route_of(servers.take(n), tool) is Some,
    ensures
        route_of(servers, tool) == route_of(servers.take(n), tool),
    decreases servers.len(),
{
    if n < servers.len() {
        assert(servers.drop_last().take(n) =~= servers.take(n));
        lemma_route_stays(servers.drop_last(), tool, n);
    } else {
        assert(servers.take(n) =~= servers);
    }
}

proof fn lemma_route(servers: Seq<(Seq<char>, ServerView)>, tool: Seq<char>)
    ensures
        match route_of(servers, tool) {
            Some(id) => exists|i: int|
                0 <= i < servers.len() && (#[trigger] servers[i]).1.artifact_id == id && offers(
                    servers[i].1,
                    tool,
                ),
            None => forall|i: int|
                0 <= i < servers.len() ==> !offers((#[trigger] servers[i]).1, tool),
        },
    decreases servers.len(),
{
    if servers.len() > 0 {
        let rest = servers.drop_last();
        lemma_route(rest, tool);
        assert(servers.last() == servers[servers.len() - 1]);
        match route_of(rest, tool) {
            Some(id) => {
                let i = choose|i: int|
                    0 <= i < rest.len() && (#[trigger] rest[i]).1.artifact_id == id && offers(
                        rest[i].1,
                        tool,
                    );
                assert(servers[i] == rest[i]);
            },
            None => {
                if !offers(servers.last().1, tool) {
                    assert forall|i: int| 0 <= i < servers.len() implies !offers(
                        (#[trigger] servers[i]).1,
                        tool,
                    ) by {
                        if i < rest.len() {
                            assert(rest[i] == servers[i]);
                        }
                    }
                }
            },
        }
    }
}

/// Whether every server stands under the name of its artifact.
pub open spec fn own_names(servers: Seq<(Seq<char>, ServerView)>) -> bool {
    forall|i: int|
        0 <= i < servers.len() ==> (#[trigger] servers[i]).0 == servers[i].1.artifact_id
}

/// Every server stands under the name of its artifact, whatever is registered and
/// taken out.
pub proof fn lemma_own_names(servers: Seq<(Seq<char>, ServerView)>, server: ServerView, id: Seq<char>)
    requires
        own_names(servers),
    ensures
        own_names(Seq::empty()),
        own_names(sorted_map::put(servers, server.artifact_id, server)),
        own_names(sorted_map::without(servers, id)),
{
    let good = |e: (Seq<char>, ServerView)| e.0 == e.1.artifact_id;
    sorted_map::lemma_put_all(servers, server.artifact_id, server, good);
    sorted_map::lemma_without_all(servers, id, good);
    assert forall|i: int| 0 <= i < sorted_map::put(servers, server.artifact_id, server).len() implies (
    #[trigger] sorted_map::put(servers, server.artifact_id, server)[i]).0 == sorted_map::put(
        servers,
        server.artifact_id,
        server,
    )[i].1.artifact_id by {
        assert(good(sorted_map::put(servers, server.artifact_id, server)[i]));
    }
    assert forall|i: int| 0 <= i < sorted_map::without(servers, id).len() implies (
    #[trigger] sorted_map::without(servers, id)[i]).0 == sorted_map::without(
        servers,
        id,
    )[i].1.artifact_id by {
        assert(good(sorted_map::without(servers, id)[i]));
    }
}

/// A call is routed exactly if some server offers the tool, and it goes to a server
/// that does.
pub proof fn lemma_routed(servers: Seq<(Seq<char>, ServerView)>, tool: Seq<char>)
    ensures
        route_of(servers, tool) is Some <==> exists|i: int|
            0 <= i < servers.len() && offers((#[trigger] servers[i]).1, tool),
        route_of(servers, tool) matches Some(id) ==> exists|i: int|
            0 <= i < servers.len() && (#[trigger] servers[i]).1.artifact_id == id && offers(
                servers[i].1,
                tool,
            ),
{
    lemma_route(servers, tool);
}

/// Once an artifact is unregistered no call goes to it, and calls of other
/// artifacts' tools still find one.
pub proof fn lemma_unregistered(
    servers: Seq<(Seq<char>, ServerView)>,
    id: Seq<char>,
    tool: Seq<char>,
)
    requires
        sorted_map::ascending(servers),
        own_names(servers),
    ensures
        route_of(sorted_map::without(servers, id), tool) != Some(id),
        forall|i: int|
            0 <= i < servers.len() && (#[trigger] servers[i]).0 != id && offers(servers[i].1, tool)
                ==> route_of(sorted_map::without(servers, id), tool) is Some,
{
    let left = sorted_map::without(servers, id);
    sorted_map::lemma_without(servers, id);
    lemma_own_names(servers, servers[0].1, id);
    lemma_route(left, tool);
    if route_of(left, tool) == Some(id) {
        let i = choose|i: int|
            0 <= i < left.len() && (#[trigger] left[i]).1.artifact_id == id && offers(
                left[i].1,
                tool,
            );
        assert(left[i].0 == id);
        assert(sorted_map::has_key(left, id));
    }
    assert forall|i: int|
        0 <= i < servers.len() && (#[trigger] servers[i]).0 != id && offers(
            servers[i].1,
            tool,
        ) implies route_of(left, tool) is Some by {
        sorted_map::lemma_as_map(servers);
        sorted_map::lemma_as_map(left);
        let key = servers[i].0;
        assert(sorted_map::has_key(servers, key));
        assert(sorted_map::as_map(servers).dom().contains(key));
        assert(sorted_map::as_map(left).dom().contains(key));
        assert(sorted_map::has_key(left, key));
        let k = choose|k: int| 0 <= k < left.len() && (#[trigger] left[k]).0 == key;
        assert(sorted_map::as_map(left)[left[k].0] == left[k].1);
        assert(sorted_map::as_map(servers)[servers[i].0] == servers[i].1);
        assert(offers(left[k].1, tool));
    }
}

proof fn lemma_registry(tools: Seq<ToolSpecView>, name: Seq<char>)
    ensures
        sorted_map::ascending(registry_of(tools)),
        sorted_map::as_map(registry_of(tools)).dom().contains(name) <==> exists|i: int|
            0 <= i < tools.len() && (#[trigger] tools[i]).name == name,
    decreases tools.len(),
{
    if tools.len() > 0 {
        let rest = tools.drop_last();
        lemma_registry(rest, name);
        sorted_map::lemma_put(registry_of(rest), tools.last().name, tools.last());
        assert(tools.last() == tools[tools.len() - 1]);
        if exists|i: int| 0 <= i < rest.len() && (#[trigger] rest[i]).name == name {
            let i = choose|i: int| 0 <= i < rest.len() && (#[trigger] rest[i]).name == name;
            assert(tools[i] == rest[i]);
        }
        if exists|i: int| 0 <= i < tools.len() && (#[trigger] tools[i]).name == name {
            let i = choose|i: int| 0 <= i < tools.len() && (#[trigger] tools[i]).name == name;
            if i < rest.len() {
                assert(tools[i] == rest[i]);
            }
        }
    }
}

proof fn lemma_all_tools(servers: Seq<(Seq<char>, ServerView)>, name: Seq<char>)
    ensures
        (exists|i: int| 0 <= i < servers.len() && offers((#[trigger] servers[i]).1, name)) <==> (
        exists|k: int|
            0 <= k < all_tools_of(servers).len() && (#[trigger] all_tools_of(servers)[k]).name
                == name),
    decreases servers.len(),
{
    let all = all_tools_of(servers);
    if servers.len() > 0 {
        let rest = servers.drop_last();
        let own = servers.last().1.tools;
        let before = all_tools_of(rest);
        lemma_all_tools(rest, name);
        assert(servers.last() == servers[servers.len() - 1]);
        if exists|i: int| 0 <= i < servers.len() && offers((#[trigger] servers[i]).1, name) {
            let i = choose|i: int|
                0 <= i < servers.len() && offers((#[trigger] servers[i]).1, name);
            if i < rest.len() {
                assert(rest[i] == servers[i]);
                let k = choose|k: int|
                    0 <= k < before.len() && (#[trigger] before[k]).name == name;
                assert(all[k] == before[k]);
            } else {
                let k = choose|k: int| 0 <= k < own.len() && (#[trigger] own[k]).name == name;
                assert(all[before.len() + k] == own[k]);
            }
        }
        if exists|k: int| 0 <= k < all.len() && (#[trigger] all[k]).name == name {
            let k = choose|k: int| 0 <= k < all.len() && (#[trigger] all[k]).name == name;
            if k < before.len() {
                assert(before[k] == all[k]);
                let i = choose|i: int|
                    0 <= i < rest.len() && offers((#[trigger] rest[i]).1, name);
                assert(servers[i] == rest[i]);
            } else {
                assert(own[k - before.len()] == all[k]);
                assert(offers(servers[servers.len() - 1].1, name));
            }
        }
    }
}

/// The registry holds exactly the tools that can be called.
pub proof fn lemma_registry_is_callable(servers: Seq<(Seq<char>, ServerView)>, name: Seq<char>)
    ensures
        sorted_map::as_map(registry_of(all_tools_of(servers))).dom().contains(name) <==> route_of(
            servers,
            name,
        ) is Some,
{
    lemma_registry(all_tools_of(servers), name);
    lemma_all_tools(servers, name);
    lemma_route(servers, name);
}

} // verus!
