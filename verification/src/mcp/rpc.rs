//! The messages that go over the wire: JSON-RPC, one message to a line.

use vstd::prelude::*;
use crate::json;
use crate::json::Json;
use crate::json::JsonView;
use crate::text;

verus! {

/// The code of a call that failed.
pub const CALL_FAILED: i32 = -32000;

/// The code of a method or tool that is not known.
pub const NOT_KNOWN: i32 = -32601;

/// The code of parameters that cannot be read.
pub const BAD_PARAMS: i32 = -32602;

/// An error in a message.
pub struct JsonRpcError {
    pub code: i32,
    pub message: String,
}

/// A message.
pub struct JsonRpc {
    pub jsonrpc: String,
    pub id: Option<Json>,
    pub method: Option<String>,
    pub params: Option<Json>,
    pub result: Option<Json>,
    pub error: Option<JsonRpcError>,
}

/// What an error is.
#[verifier::ext_equal]
pub struct RpcErrorView {
    pub code: i32,
    pub message: Seq<char>,
}

/// What a message is.
#[verifier::ext_equal]
pub struct RpcView {
    pub jsonrpc: Seq<char>,
    pub id: Option<JsonView>,
    pub method: Option<Seq<char>>,
    pub params: Option<JsonView>,
    pub result: Option<JsonView>,
    pub error: Option<RpcErrorView>,
}

/// What an optional document is.
pub open spec fn opt_json(v: Option<Json>) -> Option<JsonView> {
    match v {
        Some(j) => Some(j@),
        None => None,
    }
}

impl View for JsonRpcError {
    type V = RpcErrorView;

    open spec fn view(&self) -> RpcErrorView {
        RpcErrorView { code: self.code, message: self.message@ }
    }
}

impl View for JsonRpc {
    type V = RpcView;

    open spec fn view(&self) -> RpcView {
        RpcView {
            jsonrpc: self.jsonrpc@,
            id: opt_json(self.id),
            method: text::opt_view(self.method),
            params: opt_json(self.params),
            result: opt_json(self.result),
            error: match self.error {
                Some(e) => Some(e@),
                None => None,
            },
        }
    }
}

/// The members with one more, where there is a value for it.
pub open spec fn with_some(
    members: Map<Seq<char>, JsonView>,
    name: Seq<char>,
    value: Option<JsonView>,
) -> Map<Seq<char>, JsonView> {
    match value {
        Some(v) => members.insert(name, v),
        None => members,
    }
}

/// The document of an error.
pub open spec fn error_json(e: RpcErrorView) -> JsonView {
    JsonView::Object(
        Map::empty().insert("code"@, json::integer(e.code as i64)).insert(
            "message"@,
            JsonView::Text(e.message),
        ),
    )
}

/// The document of a message: a member that the message lacks is left out.
pub open spec fn rpc_json(m: RpcView) -> JsonView {
    let head = Map::empty().insert("jsonrpc"@, JsonView::Text(m.jsonrpc));
    let named = with_some(
        with_some(head, "id"@, m.id),
        "method"@,
        match m.method {
            Some(t) => Some(JsonView::Text(t)),
            None => None,
        },
    );
    JsonView::Object(
        with_some(
            with_some(with_some(named, "params"@, m.params), "result"@, m.result),
            "error"@,
            match m.error {
                Some(e) => Some(error_json(e)),
                None => None,
            },
        ),
    )
}

/// The line of a message.
pub open spec fn rpc_line(m: RpcView) -> Seq<char> {
    json::written(rpc_json(m)) + "\n"@
}

/// A request.
pub open spec fn request(id: JsonView, method: Seq<char>, params: JsonView) -> RpcView {
    RpcView {
        jsonrpc: "2.0"@,
        id: Some(id),
        method: Some(method),
        params: Some(params),
        result: None,
        error: None,
    }
}

/// The reply with a result.
pub open spec fn reply(id: JsonView, result: JsonView) -> RpcView {
    RpcView {
        jsonrpc: "2.0"@,
        id: Some(id),
        method: None,
        params: None,
        result: Some(result),
        error: None,
    }
}

/// The reply with an error.
pub open spec fn failure(id: JsonView, code: i32, message: Seq<char>) -> RpcView {
    RpcView {
        jsonrpc: "2.0"@,
        id: Some(id),
        method: None,
        params: None,
        result: None,
        error: Some(RpcErrorView { code, message }),
    }
}

fn add_some(v: Json, name: &str, value: &Option<Json>) -> (more: Json)
    requires
        v@ is Object,
    ensures
        more@ == JsonView::Object(with_some(v@->Object_0, name@, opt_json(*value))),
{
    match value {
        Some(j) => v.with(name, j.copy()),
        None => v,
    }
}

impl JsonRpc {
    /// A request.
    pub fn request(id: Json, method: &str, params: Json) -> (message: Self)
        ensures
            message@ == request(id@, method@, params@),
    {
        JsonRpc {
            jsonrpc: "2.0".to_string(),
            id: Some(id),
            method: Some(method.to_string()),
            params: Some(params),
            result: None,
            error: None,
        }
    }

    /// The reply with a result.
    pub fn reply(id: Json, result: Json) -> (message: Self)
        ensures
            message@ == reply(id@, result@),
    {
        JsonRpc {
            jsonrpc: "2.0".to_string(),
            id: Some(id),
            method: None,
            params: None,
            result: Some(result),
            error: None,
        }
    }

    /// The reply with an error.
    pub fn failure(id: Json, code: i32, message: &str) -> (reply: Self)
        ensures
            reply@ == failure(id@, code, message@),
    {
        JsonRpc {
            jsonrpc: "2.0".to_string(),
            id: Some(id),
            method: None,
            params: None,
            result: None,
            error: Some(JsonRpcError { code, message: message.to_string() }),
        }
    }

    /// The document of the message.
    pub fn to_json(&self) -> (v: Json)
        ensures
            v@ == rpc_json(self@),
    {
        let method = match &self.method {
            Some(t) => Some(Json::of_text(t.as_str())),
            None => None,
        };
        let error = match &self.error {
            Some(e) => Some(
                Json::object().with("code", Json::of_integer(e.code as i64)).with(
                    "message",
                    Json::of_text(e.message.as_str()),
                ),
            ),
            None => None,
        };
        let head = Json::object().with("jsonrpc", Json::of_text(self.jsonrpc.as_str()));
        let named = add_some(add_some(head, "id", &self.id), "method", &method);
        add_some(
            add_some(add_some(named, "params", &self.params), "result", &self.result),
            "error",
            &error,
        )
    }

    /// The line of the message.
    pub fn line(&self) -> (line: String)
        ensures
            line@ == rpc_line(self@),
            json::plain(rpc_json(self@), 127) ==> json::parsed(line@.drop_last()) == Some(
                rpc_json(self@),
            ),
    {
        proof {
            reveal_strlit("\n");
        }
        let v = self.to_json();
        let mut line = json::write(&v);
        let ghost bare = line@;
        line.push('\n');
        assert("\n"@ =~= seq!['\n']);
        assert(line@ =~= bare + "\n"@);
        assert(line@.drop_last() =~= bare);
        line
    }
}

/// Whether the documents in a message are plain to this depth.
pub open spec fn plain_parts(m: RpcView, depth: nat) -> bool {
    &&& m.id matches Some(v) ==> json::plain(v, depth)
    &&& m.params matches Some(v) ==> json::plain(v, depth)
    &&& m.result matches Some(v) ==> json::plain(v, depth)
}

/// A message with plain documents in it is plain, one level deeper.
pub proof fn lemma_plain(m: RpcView, depth: nat)
    requires
        plain_parts(m, depth),
        depth > 0,
    ensures
        json::plain(rpc_json(m), depth + 1),
{
    let v = rpc_json(m);
    let fields = v->Object_0;
    match m.error {
        Some(e) => {
            let parts = error_json(e)->Object_0;
            assert forall|k: Seq<char>| parts.dom().contains(k) implies json::plain(
                #[trigger] parts[k],
                (depth - 1) as nat,
            ) by {
                if k == "message"@ {
                } else {
                    assert(k == "code"@);
                }
            }
            assert(json::plain(error_json(e), depth));
        },
        None => {},
    }
    assert forall|k: Seq<char>| fields.dom().contains(k) implies json::plain(
        #[trigger] fields[k],
        depth,
    ) by {
        if k == "error"@ && m.error is Some {
        } else if k == "result"@ && m.result is Some {
        } else if k == "params"@ && m.params is Some {
        } else if k == "method"@ && m.method is Some {
        } else if k == "id"@ && m.id is Some {
        } else {
            assert(k == "jsonrpc"@);
        }
    }
}

/// What is read of a message is what was put in; a member that it lacks reads as
/// null.
pub proof fn lemma_members(m: RpcView)
    ensures
        rpc_json(m).at("id"@) == (match m.id {
            Some(v) => v,
            None => JsonView::Null,
        }),
        rpc_json(m).at("method"@).text() == m.method,
        rpc_json(m).at("params"@) == (match m.params {
            Some(v) => v,
            None => JsonView::Null,
        }),
        rpc_json(m).at("result"@) == (match m.result {
            Some(v) => v,
            None => JsonView::Null,
        }),
        rpc_json(m).at("error"@) == (match m.error {
            Some(e) => error_json(e),
            None => JsonView::Null,
        }),
        forall|e: RpcErrorView| #[trigger]
            error_json(e).at("message"@).text() == Some(e.message),
{
    reveal_strlit("jsonrpc");
    reveal_strlit("id");
    reveal_strlit("method");
    reveal_strlit("params");
    reveal_strlit("result");
    reveal_strlit("error");
    reveal_strlit("code");
    reveal_strlit("message");
    assert("method"@[0] == 'm' && "params"@[0] == 'p' && "result"@[0] == 'r');
    assert("method"@ != "params"@ && "method"@ != "result"@ && "params"@ != "result"@);
    assert("id"@.len() == 2 && "jsonrpc"@.len() == 7 && "error"@.len() == 5);
    assert("code"@.len() != "message"@.len());
}

} // verus!
