//! Questions to memory as they go over the wire.

use vstd::prelude::*;
use crate::json;
use crate::json::Json;
use crate::json::JsonNumberView;
use crate::json::JsonView;
use crate::memory::protocol;
use crate::memory::protocol::MemoryLayer;
use crate::memory::protocol::MemoryQuery;
use crate::memory::protocol::MemoryResult;
use crate::memory::protocol::MemoryWrite;
use crate::text;

verus! {

/// What a question is.
#[allow(inconsistent_fields)]
#[verifier::ext_equal]
pub enum QueryView {
    Search { query: Seq<char>, layers: Seq<MemoryLayer>, limit: usize },
    Recent { since_ms: u64, layers: Seq<MemoryLayer> },
    UserProfile,
    Corrections { limit: usize },
}

impl View for MemoryQuery {
    type V = QueryView;

    open spec fn view(&self) -> QueryView {
        match self {
            MemoryQuery::Search { query, layers, limit } => QueryView::Search {
                query: query@,
                layers: layers@,
                limit: *limit,
            },
            MemoryQuery::Recent { since_ms, layers } => QueryView::Recent {
                since_ms: *since_ms,
                layers: layers@,
            },
            MemoryQuery::UserProfile => QueryView::UserProfile,
            MemoryQuery::Corrections { limit } => QueryView::Corrections { limit: *limit },
        }
    }
}

/// The document of layers.
pub open spec fn layers_json(layers: Seq<MemoryLayer>) -> JsonView {
    JsonView::Array(Seq::new(layers.len(), |i: int| JsonView::Text(layers[i].wire())))
}

/// The members of a message of a kind.
pub open spec fn op(name: Seq<char>) -> Map<Seq<char>, JsonView> {
    Map::empty().insert("op"@, JsonView::Text(name))
}

/// The document of a question.
pub open spec fn query_json(q: QueryView) -> JsonView {
    match q {
        QueryView::Search { query, layers, limit } => JsonView::Object(
            op("search"@).insert("query"@, JsonView::Text(query)).insert(
                "layers"@,
                layers_json(layers),
            ).insert("limit"@, JsonView::Number(JsonNumberView::Natural(limit as u64))),
        ),
        QueryView::Recent { since_ms, layers } => JsonView::Object(
            op("recent"@).insert(
                "since_ms"@,
                JsonView::Number(JsonNumberView::Natural(since_ms)),
            ).insert("layers"@, layers_json(layers)),
        ),
        QueryView::UserProfile => JsonView::Object(op("user_profile"@)),
        QueryView::Corrections { limit } => JsonView::Object(
            op("corrections"@).insert(
                "limit"@,
                JsonView::Number(JsonNumberView::Natural(limit as u64)),
            ),
        ),
    }
}

/// The layers that a list of documents names, where each names one.
pub open spec fn layers_of_list(items: Seq<JsonView>) -> Option<Seq<MemoryLayer>>
    decreases items.len(),
{
    if items.len() == 0 {
        Some(Seq::empty())
    } else {
        match (layers_of_list(items.drop_last()), items.last()) {
            (Some(before), JsonView::Text(name)) => match protocol::layer_of(name) {
                Some(layer) => Some(before.push(layer)),
                None => None,
            },
            _ => None,
        }
    }
}

/// The layers of a question, which may be left out.
pub open spec fn layers_member(v: JsonView) -> Option<Seq<MemoryLayer>> {
    match v.field("layers"@) {
        None => Some(Seq::empty()),
        Some(JsonView::Array(items)) => layers_of_list(items),
        Some(_) => None,
    }
}

/// The limit of a question.
pub open spec fn limit_member(v: JsonView) -> Option<usize> {
    match v.natural_field("limit"@) {
        Some(n) => if n <= usize::MAX {
            Some(n as usize)
        } else {
            None
        },
        None => None,
    }
}

/// The question that a document holds.
pub open spec fn query_of_json(v: JsonView) -> Option<QueryView> {
    match v.text_field("op"@) {
        None => None,
        Some(name) => if name == "search"@ {
            match (v.text_field("query"@), layers_member(v), limit_member(v)) {
                (Some(query), Some(layers), Some(limit)) => Some(
                    QueryView::Search { query, layers, limit },
                ),
                _ => None,
            }
        } else if name == "recent"@ {
            match (v.natural_field("since_ms"@), layers_member(v)) {
                (Some(since_ms), Some(layers)) => Some(QueryView::Recent { since_ms, layers }),
                _ => None,
            }
        } else if name == "user_profile"@ {
            Some(QueryView::UserProfile)
        } else if name == "corrections"@ {
            match limit_member(v) {
                Some(limit) => Some(QueryView::Corrections { limit }),
                None => None,
            }
        } else {
            None
        },
    }
}

fn write_layers(layers: &Vec<MemoryLayer>) -> (v: Json)
    ensures
        v@ == layers_json(layers@),
{
    let mut items: Vec<Json> = Vec::new();
    let mut i: usize = 0;
    let ghost all = layers_json(layers@)->Array_0;
    assert(all.take(0) =~= Seq::<JsonView>::empty());
    while i < layers.len()
        invariant
            i <= layers.len(),
            all == layers_json(layers@)->Array_0,
            all.len() == layers.len(),
            json::items_view(items@) == all.take(i as int),
        decreases layers.len() - i,
    {
        let ghost before = items@;
        let item = Json::Text(layers[i].wire_name());
        assert(item@ == all[i as int]);
        items.push(item);
        assert(items@.drop_last() =~= before);
        assert(all.take(i + 1) =~= all.take(i as int).push(all[i as int]));
        i += 1;
    }
    assert(all.take(i as int) =~= all);
    Json::Array(items)
}

proof fn lemma_layers_fail(items: Seq<JsonView>, at: int)
    requires
        0 <= at < items.len(),
        match items[at] {
            JsonView::Text(name) => protocol::layer_of(name) is None,
            _ => true,
        },
    ensures
        layers_of_list(items) is None,
    decreases items.len(),
{
    if at < items.len() - 1 {
        assert(items.drop_last()[at] == items[at]);
        lemma_layers_fail(items.drop_last(), at);
    }
}

/// What optional layers are.
pub open spec fn opt_layers(layers: Option<Vec<MemoryLayer>>) -> Option<Seq<MemoryLayer>> {
    match layers {
        Some(list) => Some(list@),
        None => None,
    }
}

fn read_layers(items: &Vec<Json>) -> (layers: Option<Vec<MemoryLayer>>)
    ensures
        opt_layers(layers) == layers_of_list(json::items_view(items@)),
{
    let ghost all = json::items_view(items@);
    proof {
        json::lemma_items_view(items@);
    }
    let mut list: Vec<MemoryLayer> = Vec::new();
    let mut i: usize = 0;
    assert(all.take(0) =~= Seq::<JsonView>::empty());
    while i < items.len()
        invariant
            i <= items.len(),
            all == json::items_view(items@),
            all.len() == items.len(),
            forall|k: int| 0 <= k < items.len() ==> all[k] == (#[trigger] items@[k])@,
            layers_of_list(all.take(i as int)) == Some(list@),
        decreases items.len() - i,
    {
        assert(all.take(i + 1).drop_last() =~= all.take(i as int));
        assert(all[i as int] == items@[i as int]@);
        let layer = match &items[i] {
            Json::Text(name) => MemoryLayer::from_wire(name.as_str()),
            _ => None,
        };
        match layer {
            Some(l) => {
                list.push(l);
            },
            None => {
                proof {
                    lemma_layers_fail(all, i as int);
                }
                return None;
            },
        }
        i += 1;
    }
    assert(all.take(i as int) =~= all);
    Some(list)
}

fn read_layers_member(v: &Json) -> (layers: Option<Vec<MemoryLayer>>)
    ensures
        opt_layers(layers) == layers_member(v@),
{
    match v.get("layers") {
        None => Some(Vec::new()),
        Some(Json::Array(items)) => read_layers(items),
        Some(_) => None,
    }
}

fn read_limit(v: &Json) -> (limit: Option<usize>)
    ensures
        limit == limit_member(v@),
{
    match v.get_natural("limit") {
        Some(n) => if n <= usize::MAX as u64 {
            Some(n as usize)
        } else {
            None
        },
        None => None,
    }
}

fn start(name: &str) -> (v: Json)
    ensures
        v@ == JsonView::Object(op(name@)),
{
    Json::object().with("op", Json::of_text(name))
}

impl MemoryQuery {
    /// The document of the question.
    pub fn to_json(&self) -> (v: Json)
        ensures
            v@ == query_json(self@),
    {
        match self {
            MemoryQuery::Search { query, layers, limit } => start("search").with(
                "query",
                Json::of_text(query.as_str()),
            ).with("layers", write_layers(layers)).with("limit", Json::of_natural(*limit as u64)),
            MemoryQuery::Recent { since_ms, layers } => start("recent").with(
                "since_ms",
                Json::of_natural(*since_ms),
            ).with("layers", write_layers(layers)),
            MemoryQuery::UserProfile => start("user_profile"),
            MemoryQuery::Corrections { limit } => start("corrections").with(
                "limit",
                Json::of_natural(*limit as u64),
            ),
        }
    }

    /// The question that a document holds.
    pub fn from_json(v: &Json) -> (query: Option<MemoryQuery>)
        ensures
            (match query {
                Some(q) => Some(q@),
                None => None,
            }) == query_of_json(v@),
    {
        let name = match v.get_text("op") {
            Some(name) => name,
            None => {
                return None;
            },
        };
        if text::same_text(name.as_str(), "search") {
            match (v.get_text("query"), read_layers_member(v), read_limit(v)) {
                (Some(query), Some(layers), Some(limit)) => Some(
                    MemoryQuery::Search { query, layers, limit },
                ),
                _ => None,
            }
        } else if text::same_text(name.as_str(), "recent") {
            match (v.get_natural("since_ms"), read_layers_member(v)) {
                (Some(since_ms), Some(layers)) => Some(MemoryQuery::Recent { since_ms, layers }),
                _ => None,
            }
        } else if text::same_text(name.as_str(), "user_profile") {
            Some(MemoryQuery::UserProfile)
        } else if text::same_text(name.as_str(), "corrections") {
            match read_limit(v) {
                Some(limit) => Some(MemoryQuery::Corrections { limit }),
                None => None,
            }
        } else {
            None
        }
    }
}

/// The tag of a change.
pub open spec fn write_op(w: MemoryWrite) -> Seq<char> {
    match w {
        MemoryWrite::Episode { event } => "episode"@,
        MemoryWrite::Procedural { key, content, confidence } => "procedural"@,
        MemoryWrite::UserCorrection { correction, context, ts_ms } => "user_correction"@,
        MemoryWrite::Semantic { id, topic, content, ts_ms } => "semantic"@,
        MemoryWrite::Profile { profile } => "profile"@,
    }
}

impl MemoryWrite {
    /// The tag of the change.
    pub fn op_name(&self) -> (name: &'static str)
        ensures
            name@ == write_op(*self),
    {
        match self {
            MemoryWrite::Episode { event } => "episode",
            MemoryWrite::Procedural { key, content, confidence } => "procedural",
            MemoryWrite::UserCorrection { correction, context, ts_ms } => "user_correction",
            MemoryWrite::Semantic { id, topic, content, ts_ms } => "semantic",
            MemoryWrite::Profile { profile } => "profile",
        }
    }
}

impl MemoryResult {
    /// The tag of the reply.
    pub fn kind_name(&self) -> (name: &'static str)
        ensures
            name@ == (match *self {
                MemoryResult::Hits { hits } => "hits"@,
                MemoryResult::Profile { profile } => "profile"@,
                MemoryResult::Done => "ok"@,
                MemoryResult::Error { message } => "error"@,
            }),
    {
        match self {
            MemoryResult::Hits { hits } => "hits",
            MemoryResult::Profile { profile } => "profile",
            MemoryResult::Done => "ok",
            MemoryResult::Error { message } => "error",
        }
    }
}

proof fn lemma_layers_come_back(layers: Seq<MemoryLayer>)
    ensures
        layers_of_list(layers_json(layers)->Array_0) == Some(layers),
    decreases layers.len(),
{
    let items = layers_json(layers)->Array_0;
    if layers.len() > 0 {
        lemma_layers_come_back(layers.drop_last());
        assert(items.drop_last() =~= layers_json(layers.drop_last())->Array_0);
        protocol::lemma_layer_of(layers.last());
        assert(layers.drop_last().push(layers.last()) =~= layers);
    } else {
        assert(layers =~= Seq::empty());
    }
}

/// A question that was written is read back.
pub proof fn lemma_query_comes_back(q: QueryView)
    ensures
        query_of_json(query_json(q)) == Some(q),
{
    reveal_strlit("op");
    reveal_strlit("query");
    reveal_strlit("layers");
    reveal_strlit("limit");
    reveal_strlit("since_ms");
    reveal_strlit("search");
    reveal_strlit("recent");
    reveal_strlit("user_profile");
    reveal_strlit("corrections");
    assert("op"@.len() == 2 && "query"@.len() == 5 && "layers"@.len() == 6 && "limit"@.len() == 5
        && "since_ms"@.len() == 8);
    assert("query"@[0] == 'q' && "limit"@[0] == 'l');
    assert("search"@[0] == 's' && "recent"@[0] == 'r');
    assert("user_profile"@.len() == 12 && "corrections"@.len() == 11);
    match q {
        QueryView::Search { query, layers, limit } => {
            lemma_layers_come_back(layers);
        },
        QueryView::Recent { since_ms, layers } => {
            lemma_layers_come_back(layers);
        },
        _ => {},
    }
}

/// A question goes over the wire under its own name, with each part under its name and the
/// layers by theirs, in order.
pub proof fn lemma_question_on_the_wire(
    query: Seq<char>,
    layers: Seq<MemoryLayer>,
    limit: usize,
    since_ms: u64,
)
    ensures
        ({
            let named = JsonView::Array(
                Seq::new(
                    layers.len(),
                    |i: int|
                        JsonView::Text(
                            match layers[i] {
                                MemoryLayer::Episodic => "episodic"@,
                                MemoryLayer::Semantic => "semantic"@,
                                MemoryLayer::Procedural => "procedural"@,
                                MemoryLayer::Identity => "identity"@,
                            },
                        ),
                ),
            );
            let number = |n: u64| JsonView::Number(JsonNumberView::Natural(n));
            &&& query_json(QueryView::Search { query, layers, limit }) == JsonView::Object(
                map![
                    "op"@ => JsonView::Text("search"@),
                    "query"@ => JsonView::Text(query),
                    "layers"@ => named,
                    "limit"@ => number(limit as u64),
                ],
            )
            &&& query_json(QueryView::Recent { since_ms, layers }) == JsonView::Object(
                map![
                    "op"@ => JsonView::Text("recent"@),
                    "since_ms"@ => number(since_ms),
                    "layers"@ => named,
                ],
            )
            &&& query_json(QueryView::UserProfile) == JsonView::Object(
                map!["op"@ => JsonView::Text("user_profile"@)],
            )
            &&& query_json(QueryView::Corrections { limit }) == JsonView::Object(
                map!["op"@ => JsonView::Text("corrections"@), "limit"@ => number(limit as u64)],
            )
        }),
{
    let named = Seq::new(
        layers.len(),
        |i: int|
            JsonView::Text(
                match layers[i] {
                    MemoryLayer::Episodic => "episodic"@,
                    MemoryLayer::Semantic => "semantic"@,
                    MemoryLayer::Procedural => "procedural"@,
                    MemoryLayer::Identity => "identity"@,
                },
            ),
    );
    assert(layers_json(layers)->Array_0 =~= named);
}

/// A question that leaves its layers out asks for all of them; one that leaves out another
/// part, or names what is no layer, is none.
pub proof fn lemma_question_with_gaps(m: Map<Seq<char>, JsonView>, query: Seq<char>, limit: u64)
    requires
        m.dom().contains("op"@),
        m["op"@] == JsonView::Text("search"@),
        limit <= usize::MAX,
    ensures
        m.dom().contains("query"@) && m["query"@] == JsonView::Text(query) && m.dom().contains(
            "limit"@,
        ) && m["limit"@] == JsonView::Number(JsonNumberView::Natural(limit)) && !m.dom().contains(
            "layers"@,
        ) ==> query_of_json(JsonView::Object(m)) == Some(
            QueryView::Search { query, layers: Seq::empty(), limit: limit as usize },
        ),
        !m.dom().contains("query"@) ==> query_of_json(JsonView::Object(m)) is None,
        !m.dom().contains("limit"@) ==> query_of_json(JsonView::Object(m)) is None,
{
}

/// A change goes by its own name on the wire, and so does a reply.
pub proof fn lemma_tags(w: MemoryWrite, tag: &'static str, r: MemoryResult, kind: &'static str)
    requires
        call_ensures(MemoryWrite::op_name, (&w,), tag),
        call_ensures(MemoryResult::kind_name, (&r,), kind),
    ensures
        tag@ == (match w {
            MemoryWrite::Episode { .. } => "episode"@,
            MemoryWrite::Procedural { .. } => "procedural"@,
            MemoryWrite::UserCorrection { .. } => "user_correction"@,
            MemoryWrite::Semantic { .. } => "semantic"@,
            MemoryWrite::Profile { .. } => "profile"@,
        }),
        kind@ == (match r {
            MemoryResult::Hits { .. } => "hits"@,
            MemoryResult::Profile { .. } => "profile"@,
            MemoryResult::Done => "ok"@,
            MemoryResult::Error { .. } => "error"@,
        }),
{
}

} // verus!
