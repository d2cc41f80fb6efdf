//! MCP (Model Context Protocol) over Streamable HTTP: the rules of the JSON-RPC 2.0
//! exchange. Tool calls go the same way as `/invoke`, so that both always agree.
//!
//! - `initialize` gives `{protocolVersion, capabilities, serverInfo}` and a session.
//! - `notifications/*` (or any message without an id) is accepted with an empty body.
//! - `tools/list` gives `{tools:[{name, description, inputSchema}]}` on one page.
//! - `tools/call` gives `{content:[{type:"text", text}], isError}`: failures are
//!   answers with `isError:true`, never transport errors.
//! - An unknown method is error -32601; `ping` gives an empty result.

use crate::codec::{object1, object2, object3};
use crate::json::{compact_text, json_parsed, lookup_distinct, member, one_line, parse_json,
    read_tree, render_compact, sort_keys, sorted, text_member, Json, JsonObject, JsonTree};
use crate::serve::{action_named, action_outcome, authorized, dispatch_action, dispatched,
    invoke_reply, let_in, refusal, unauthorized, Action, ActionError, ActionFault, AppState,
    Outcome};
use crate::text::{begins_with, concat2, concat3, digits_differ, numeral, numeral_text,
    same_text, starts_with};
use vstd::prelude::*;
use vstd::string::*;

verus! {

// ---------------------------------------------------------------------------
// Versions
// ---------------------------------------------------------------------------

/// Whether a protocol version is one that the server speaks.
pub open spec fn speaks(version: Seq<char>) -> bool {
    version == "2024-11-05"@ || version == "2025-03-26"@ || version == "2025-06-18"@
}

/// The version for a client: the client's choice where the server speaks it, else
/// the latest.
pub open spec fn negotiated(client: Seq<char>) -> Seq<char> {
    if speaks(client) {
        client
    } else {
        "2025-06-18"@
    }
}

pub fn negotiate_version(client: &str) -> (r: &'static str)
    ensures
        r@ == negotiated(client@),
{
    if same_text(client, "2024-11-05") {
        "2024-11-05"
    } else if same_text(client, "2025-03-26") {
        "2025-03-26"
    } else {
        "2025-06-18"
    }
}

// ---------------------------------------------------------------------------
// Tools
// ---------------------------------------------------------------------------

/// One adonword capability exposed over MCP.
pub struct ToolDef {
    /// MCP tool name = the action name.
    pub name: &'static str,
    /// English description surfaced in `tools/list`.
    pub description: &'static str,
    /// JSON Schema for the `arguments` object.
    pub input_schema: Json,
}

pub struct ToolModel {
    pub name: Seq<char>,
    pub description: Seq<char>,
    pub input_schema: JsonTree,
}

impl View for ToolDef {
    type V = ToolModel;

    open spec fn view(&self) -> ToolModel {
        ToolModel {
            name: self.name@,
            description: self.description@,
            input_schema: self.input_schema@,
        }
    }
}

/// The schema of a tool without parameters.
pub open spec fn empty_schema_tree() -> JsonTree {
    JsonTree::Object(
        seq![
            ("type"@, JsonTree::Text("object"@)),
            ("properties"@, JsonTree::Object(Seq::empty())),
        ],
    )
}

proof fn names_differ()
    ensures
        "type"@ != "properties"@,
        "type"@ != "text"@,
        "name"@ != "description"@,
        "name"@ != "inputSchema"@,
        "name"@ != "version"@,
        "description"@ != "inputSchema"@,
        "jsonrpc"@ != "id"@,
        "jsonrpc"@ != "result"@,
        "jsonrpc"@ != "error"@,
        "id"@ != "result"@,
        "id"@ != "error"@,
        "code"@ != "message"@,
        "protocolVersion"@ != "capabilities"@,
        "protocolVersion"@ != "serverInfo"@,
        "capabilities"@ != "serverInfo"@,
        "content"@ != "isError"@,
{
    reveal_strlit("type");
    reveal_strlit("properties");
    reveal_strlit("text");
    reveal_strlit("name");
    reveal_strlit("description");
    reveal_strlit("inputSchema");
    reveal_strlit("version");
    reveal_strlit("jsonrpc");
    reveal_strlit("id");
    reveal_strlit("result");
    reveal_strlit("error");
    reveal_strlit("code");
    reveal_strlit("message");
    reveal_strlit("protocolVersion");
    reveal_strlit("capabilities");
    reveal_strlit("serverInfo");
    reveal_strlit("content");
    reveal_strlit("isError");
    assert("type"@[0] != "properties"@[0]);
    assert("type"@[1] != "text"@[1]);
    assert("name"@[0] != "description"@[0]);
    assert("name"@[0] != "inputSchema"@[0]);
    assert("name"@[0] != "version"@[0]);
    assert("description"@[0] != "inputSchema"@[0]);
    assert("jsonrpc"@[0] != "id"@[0]);
    assert("jsonrpc"@[0] != "result"@[0]);
    assert("jsonrpc"@[0] != "error"@[0]);
    assert("id"@[0] != "result"@[0]);
    assert("id"@[0] != "error"@[0]);
    assert("code"@[0] != "message"@[0]);
    assert("protocolVersion"@[0] != "capabilities"@[0]);
    assert("protocolVersion"@[0] != "serverInfo"@[0]);
    assert("capabilities"@[0] != "serverInfo"@[0]);
    assert("content"@[0] != "isError"@[0]);
}

fn empty_schema() -> (r: Json)
    ensures
        r@ == empty_schema_tree(),
{
    proof {
        names_differ();
    }
    object2(
        "type",
        Json::Text("object".to_string()),
        "properties",
        Json::Object(JsonObject::new()),
    )
}

/// All tools, in stable order.
pub open spec fn tool_models() -> Seq<ToolModel> {
    seq![
        ToolModel {
            name: "scan"@,
            description: "Run one full inspection now: file-integrity check against the baseline, suspicious process lookups and listening-port alerts. Observation + alerting only — never kills processes. Also stores the report for later `report` calls."@,
            input_schema: empty_schema_tree(),
        },
        ToolModel {
            name: "baseline_check"@,
            description: "Compare the current watched files against the stored sha256 baseline. status is clean | changed | missing (no baseline yet)."@,
            input_schema: empty_schema_tree(),
        },
        ToolModel {
            name: "report"@,
            description: "Fetch the most recent stored scan report (from the last `scan` call or watch round); no_report before the first scan."@,
            input_schema: empty_schema_tree(),
        },
    ]
}

/// What a list of tools says.
pub open spec fn tools_of(s: Seq<ToolDef>) -> Seq<ToolModel> {
    s.map_values(|t: ToolDef| t@)
}

/// All tools adonword exposes, in stable order.
pub fn tools() -> (r: Vec<ToolDef>)
    ensures
        tools_of(r@) == tool_models(),
{
    let mut out: Vec<ToolDef> = Vec::new();
    out.push(
        ToolDef {
            name: "scan",
            description: "Run one full inspection now: file-integrity check against the baseline, suspicious process lookups and listening-port alerts. Observation + alerting only — never kills processes. Also stores the report for later `report` calls.",
            input_schema: empty_schema(),
        },
    );
    out.push(
        ToolDef {
            name: "baseline_check",
            description: "Compare the current watched files against the stored sha256 baseline. status is clean | changed | missing (no baseline yet).",
            input_schema: empty_schema(),
        },
    );
    out.push(
        ToolDef {
            name: "report",
            description: "Fetch the most recent stored scan report (from the last `scan` call or watch round); no_report before the first scan.",
            input_schema: empty_schema(),
        },
    );
    assert(tools_of(out@) =~= tool_models());
    out
}

/// A tool as `tools/list` shows it.
pub open spec fn tool_tree(t: ToolModel) -> JsonTree {
    JsonTree::Object(
        seq![
            ("name"@, JsonTree::Text(t.name)),
            ("description"@, JsonTree::Text(t.description)),
            ("inputSchema"@, t.input_schema),
        ],
    )
}

/// The result of `tools/list`.
pub open spec fn tool_list_tree() -> JsonTree {
    JsonTree::Object(
        seq![
            (
                "tools"@,
                JsonTree::Array(tool_models().map_values(|t: ToolModel| tool_tree(t))),
            ),
        ],
    )
}

fn tool_list() -> (r: Json)
    ensures
        r@ == tool_list_tree(),
{
    let defs = tools();
    let mut out: Vec<Json> = Vec::new();
    let mut i: usize = 0;
    while i < defs.len()
        invariant
            i <= defs@.len(),
            out@.len() == i,
            forall|k: int| 0 <= k < i ==> (#[trigger] out@[k])@ == tool_tree(defs@[k]@),
        decreases defs@.len() - i,
    {
        proof {
            names_differ();
        }
        let tool = &defs[i];
        out.push(
            object3(
                "name",
                Json::Text(tool.name.to_string()),
                "description",
                Json::Text(tool.description.to_string()),
                "inputSchema",
                tool.input_schema.copy(),
            ),
        );
        i = i + 1;
    }
    let list = Json::Array(out);
    proof {
        let all = tool_models().map_values(|t: ToolModel| tool_tree(t));
        assert forall|k: int| 0 <= k < all.len() implies list@->Array_0[k] == all[k] by {
            assert(tools_of(defs@)[k] == defs@[k]@);
            assert(out@[k]@ == tool_tree(defs@[k]@));
        }
        assert(tools_of(defs@).len() == defs@.len());
        assert(list@->Array_0 =~= all);
    }
    object1("tools", list)
}

// ---------------------------------------------------------------------------
// JSON-RPC
// ---------------------------------------------------------------------------

pub open spec fn ok_tree(id: JsonTree, result: JsonTree) -> JsonTree {
    sorted(
        JsonTree::Object(
            seq![
                ("jsonrpc"@, JsonTree::Text("2.0"@)),
                ("id"@, id),
                ("result"@, result),
            ],
        ),
    )
}

pub fn rpc_ok(id: Json, result: Json) -> (r: Json)
    ensures
        r@ == ok_tree(id@, result@),
{
    proof {
        names_differ();
    }
    sort_keys(
        &object3("jsonrpc", Json::Text("2.0".to_string()), "id", id, "result", result),
    )
}

pub open spec fn err_tree(id: JsonTree, code: int, message: Seq<char>) -> JsonTree {
    sorted(
        JsonTree::Object(
            seq![
                ("jsonrpc"@, JsonTree::Text("2.0"@)),
                ("id"@, id),
                (
                    "error"@,
                    JsonTree::Object(
                        seq![
                            ("code"@, JsonTree::Int(code)),
                            ("message"@, JsonTree::Text(message)),
                        ],
                    ),
                ),
            ],
        ),
    )
}

pub fn rpc_err(id: Json, code: i64, message: String) -> (r: Json)
    ensures
        r@ == err_tree(id@, code as int, message@),
{
    proof {
        names_differ();
    }
    let error = object2("code", Json::Int(code), "message", Json::Text(message));
    sort_keys(&object3("jsonrpc", Json::Text("2.0".to_string()), "id", id, "error", error))
}

/// An HTTP answer: a status, a JSON body if there is one, and whether it starts a
/// session.
pub struct RpcReply {
    pub status: u16,
    pub body: Option<Json>,
    pub starts_session: bool,
}

pub struct RpcReplyModel {
    pub status: u16,
    pub body: Option<JsonTree>,
    pub starts_session: bool,
}

impl View for RpcReply {
    type V = RpcReplyModel;

    open spec fn view(&self) -> RpcReplyModel {
        RpcReplyModel {
            status: self.status,
            body: match self.body {
                Some(j) => Some(j@),
                None => None,
            },
            starts_session: self.starts_session,
        }
    }
}

/// An answer of status 200 with a body.
pub open spec fn answer(body: JsonTree) -> RpcReplyModel {
    RpcReplyModel { status: 200, body: Some(body), starts_session: false }
}

fn answer_with(body: Json) -> (r: RpcReply)
    ensures
        r@ == answer(body@),
{
    RpcReply { status: 200, body: Some(body), starts_session: false }
}

/// What a message comes to: an answer, or an action whose outcome answers it.
pub enum RpcStep {
    Reply(RpcReply),
    Call { id: Json, action: Action },
}

pub enum RpcStepModel {
    Reply(RpcReplyModel),
    Call { id: JsonTree, action: Action },
}

impl View for RpcStep {
    type V = RpcStepModel;

    open spec fn view(&self) -> RpcStepModel {
        match self {
            RpcStep::Reply(reply) => RpcStepModel::Reply(reply@),
            RpcStep::Call { id, action } => RpcStepModel::Call { id: id@, action: *action },
        }
    }
}

/// The text under a key, or the empty text.
pub open spec fn text_or_empty(t: Option<Seq<char>>) -> Seq<char> {
    match t {
        Some(s) => s,
        None => Seq::empty(),
    }
}

/// The method of a message.
pub open spec fn method_of(msg: JsonTree) -> Seq<char> {
    text_or_empty(text_member(msg, "method"@))
}

/// The parameters of a message: `null` where there are none.
pub open spec fn params_of(msg: JsonTree) -> JsonTree {
    match member(msg, "params"@) {
        Some(t) => t,
        None => JsonTree::Null,
    }
}

/// Whether a message asks for no answer.
pub open spec fn is_notification(msg: JsonTree) -> bool {
    member(msg, "id"@) is None || begins_with(method_of(msg), "notifications/"@)
}

/// The result of `initialize`.
pub open spec fn initialize_tree(client: Seq<char>) -> JsonTree {
    JsonTree::Object(
        seq![
            ("protocolVersion"@, JsonTree::Text(negotiated(client))),
            (
                "capabilities"@,
                JsonTree::Object(
                    seq![
                        (
                            "tools"@,
                            JsonTree::Object(seq![("listChanged"@, JsonTree::Bool(false))]),
                        ),
                    ],
                ),
            ),
            (
                "serverInfo"@,
                JsonTree::Object(
                    seq![
                        ("name"@, JsonTree::Text("adonword"@)),
                        ("version"@, JsonTree::Text("0.1.0"@)),
                    ],
                ),
            ),
        ],
    )
}

fn initialize_result(client: &str) -> (r: Json)
    ensures
        r@ == initialize_tree(client@),
{
    proof {
        names_differ();
    }
    object3(
        "protocolVersion",
        Json::Text(negotiate_version(client).to_string()),
        "capabilities",
        object1("tools", object1("listChanged", Json::Bool(false))),
        "serverInfo",
        object2(
            "name",
            Json::Text("adonword".to_string()),
            "version",
            Json::Text("0.1.0".to_string()),
        ),
    )
}

/// What a request comes to.
pub open spec fn request_step(id: JsonTree, method: Seq<char>, params: JsonTree) -> RpcStepModel {
    if method == "initialize"@ {
        RpcStepModel::Reply(
            RpcReplyModel {
                status: 200,
                body: Some(
                    ok_tree(
                        id,
                        initialize_tree(text_or_empty(text_member(params, "protocolVersion"@))),
                    ),
                ),
                starts_session: true,
            },
        )
    } else if method == "ping"@ {
        RpcStepModel::Reply(answer(ok_tree(id, JsonTree::Object(Seq::empty()))))
    } else if method == "tools/list"@ {
        RpcStepModel::Reply(answer(ok_tree(id, tool_list_tree())))
    } else if method == "tools/call"@ {
        let name = text_or_empty(text_member(params, "name"@));
        match action_named(name) {
            Some(action) => RpcStepModel::Call { id, action },
            None => RpcStepModel::Reply(
                answer(err_tree(id, -32602, "tool not found: '"@ + name + "'"@)),
            ),
        }
    } else {
        RpcStepModel::Reply(
            answer(err_tree(id, -32601, "method not found: '"@ + method + "'"@)),
        )
    }
}

/// What a message comes to, given what came of reading it as JSON.
pub open spec fn message_step(parsed: Result<JsonTree, Seq<char>>) -> RpcStepModel {
    match parsed {
        Err(e) => RpcStepModel::Reply(
            answer(err_tree(JsonTree::Null, -32700, "parse error: "@ + e)),
        ),
        Ok(msg) => if is_notification(msg) {
            RpcStepModel::Reply(
                RpcReplyModel { status: 202, body: None, starts_session: false },
            )
        } else {
            request_step(member(msg, "id"@)->Some_0, method_of(msg), params_of(msg))
        },
    }
}

fn handle_request(id: Json, method: &str, params: &Json) -> (r: RpcStep)
    ensures
        r@ == request_step(id@, method@, params@),
{
    if same_text(method, "initialize") {
        let client = match params.get_str("protocolVersion") {
            Some(v) => v.to_string(),
            None => String::new(),
        };
        RpcStep::Reply(
            RpcReply {
                status: 200,
                body: Some(rpc_ok(id, initialize_result(client.as_str()))),
                starts_session: true,
            },
        )
    } else if same_text(method, "ping") {
        RpcStep::Reply(answer_with(rpc_ok(id, Json::Object(JsonObject::new()))))
    } else if same_text(method, "tools/list") {
        RpcStep::Reply(answer_with(rpc_ok(id, tool_list())))
    } else if same_text(method, "tools/call") {
        let name = match params.get_str("name") {
            Some(v) => v.to_string(),
            None => String::new(),
        };
        match dispatch_action(name.as_str()) {
            Ok(action) => RpcStep::Call { id, action },
            Err(_) => RpcStep::Reply(
                answer_with(
                    rpc_err(id, -32602, concat3("tool not found: '", name.as_str(), "'")),
                ),
            ),
        }
    } else {
        RpcStep::Reply(
            answer_with(rpc_err(id, -32601, concat3("method not found: '", method, "'"))),
        )
    }
}

/// Handles a message, given what came of reading it as JSON.
pub fn handle_message(parsed: Result<Json, String>) -> (r: RpcStep)
    ensures
        r@ == message_step(read_tree(parsed)),
{
    let msg = match parsed {
        Ok(j) => j,
        Err(e) => {
            return RpcStep::Reply(
                answer_with(rpc_err(Json::Null, -32700, concat2("parse error: ", e.as_str()))),
            );
        },
    };
    let method = match msg.get_str("method") {
        Some(m) => m.to_string(),
        None => String::new(),
    };
    let params = match msg.get("params") {
        Some(p) => p.copy(),
        None => Json::Null,
    };
    match msg.get("id") {
        Some(id) if !starts_with(method.as_str(), "notifications/") => handle_request(
            id.copy(),
            method.as_str(),
            &params,
        ),
        _ => RpcStep::Reply(RpcReply { status: 202, body: None, starts_session: false }),
    }
}

/// What a request to an MCP endpoint comes to.
pub open spec fn entry_step(
    authorization: Option<&str>,
    token: Option<String>,
    body: Seq<u8>,
) -> RpcStepModel {
    if !let_in(authorization, token) {
        RpcStepModel::Reply(
            RpcReplyModel {
                status: refusal().status,
                body: Some(refusal().body),
                starts_session: false,
            },
        )
    } else {
        message_step(json_parsed(body))
    }
}

/// MCP JSON-RPC entry point, mounted on both `/` (BIT discovery probes the root)
/// and `/mcp` (the canonical Streamable HTTP path).
pub fn rpc_entry(authorization: Option<&str>, state: &AppState, body: &[u8]) -> (r: RpcStep)
    ensures
        r@ == entry_step(authorization, state.token, body@),
{
    if !authorized(authorization, state) {
        let refused = unauthorized();
        return RpcStep::Reply(
            RpcReply { status: refused.status, body: Some(refused.body), starts_session: false },
        );
    }
    handle_message(parse_json(body))
}

/// The text that a tool call answers with, and whether it says what failed.
pub open spec fn call_text(outcome: Outcome) -> (Seq<char>, bool) {
    match outcome {
        Ok(t) => (compact_text(t), false),
        Err(ActionFault::Bad(m)) => (m, true),
        Err(ActionFault::Internal(m)) => (m, true),
    }
}

/// The result of `tools/call`.
pub open spec fn call_tree(outcome: Outcome) -> JsonTree {
    JsonTree::Object(
        seq![
            (
                "content"@,
                JsonTree::Array(
                    seq![
                        JsonTree::Object(
                            seq![
                                ("type"@, JsonTree::Text("text"@)),
                                ("text"@, JsonTree::Text(call_text(outcome).0)),
                            ],
                        ),
                    ],
                ),
            ),
            ("isError"@, JsonTree::Bool(call_text(outcome).1)),
        ],
    )
}

/// The answer to a tool call, given what came of its action.
pub fn call_reply(id: Json, outcome: Result<Json, ActionError>) -> (r: RpcReply)
    ensures
        r@ == answer(ok_tree(id@, call_tree(action_outcome(outcome)))),
        outcome matches Ok(value) ==> one_line(call_text(action_outcome(outcome)).0, value@),
{
    let ghost done = action_outcome(outcome);
    let (text, is_error): (String, bool) = match outcome {
        Ok(value) => (render_compact(&value), false),
        Err(ActionError::Bad(message)) => (message, true),
        Err(ActionError::Internal(message)) => (message, true),
    };
    proof {
        names_differ();
    }
    let mut content: Vec<Json> = Vec::new();
    content.push(
        object2("type", Json::Text("text".to_string()), "text", Json::Text(text)),
    );
    let list = Json::Array(content);
    let result = object2("content", list, "isError", Json::Bool(is_error));
    assert(list@->Array_0 =~= call_tree(done)->Object_0[0].1->Array_0);
    assert(result@->Object_0 =~= call_tree(done)->Object_0);
    answer_with(rpc_ok(id, result))
}

// ---------------------------------------------------------------------------
// Sessions
// ---------------------------------------------------------------------------

/// The id of a session: the time in nanoseconds, the process and a number that
/// counts sessions, in hexadecimal.
pub open spec fn session_text(nanos: u128, pid: u32, seq: u64) -> Seq<char> {
    "mcp-"@ + numeral(nanos as nat, 16) + "-"@ + numeral(pid as nat, 16) + "-"@ + numeral(
        seq as nat,
        16,
    )
}

pub fn gen_session_id(nanos: u128, pid: u32, seq: u64) -> (r: String)
    ensures
        r@ == session_text(nanos, pid, seq),
{
    let mut out = concat3("mcp-", numeral_text(nanos, 16).as_str(), "-");
    out.append(numeral_text(pid as u128, 16).as_str());
    out.append("-");
    out.append(numeral_text(seq as u128, 16).as_str());
    out
}

// ---------------------------------------------------------------------------
// Laws
// ---------------------------------------------------------------------------

/// The tools are the actions: every tool names an action, and every action has a
/// tool.
pub proof fn tools_are_the_actions(name: Seq<char>)
    ensures
        (action_named(name) is Some) == (exists|i: int|
            0 <= i < tool_models().len() && (#[trigger] tool_models()[i]).name == name),
{
    let s = tool_models();
    assert(s[0].name == "scan"@ && s[1].name == "baseline_check"@ && s[2].name == "report"@);
    if exists|i: int| 0 <= i < s.len() && (#[trigger] s[i]).name == name {
        let i = choose|i: int| 0 <= i < s.len() && (#[trigger] s[i]).name == name;
        assert(i == 0 || i == 1 || i == 2);
    }
}

/// The MCP surface and `/invoke` agree: a tool call reaches the action that
/// `/invoke` reaches by the same name, and for what came of the action both give
/// the same document, or both give the same message as an error.
pub proof fn tool_calls_agree_with_invoke(
    id: JsonTree,
    params: JsonTree,
    name: Seq<char>,
    outcome: Outcome,
)
    requires
        text_member(params, "name"@) == Some(name),
    ensures
        (request_step(id, "tools/call"@, params) matches RpcStepModel::Call { id: i, action: a }
            && i == id && dispatched(name) == Ok::<Action, ActionFault>(a)) || (request_step(
            id,
            "tools/call"@,
            params,
        ) is Reply && dispatched(name) is Err),
        call_text(outcome).1 == (invoke_reply(outcome).status != 200),
        outcome matches Ok(t) ==> call_text(outcome).0 == compact_text(invoke_reply(outcome).body),
        outcome is Err ==> invoke_reply(outcome).body == JsonTree::Object(
            seq![("error"@, JsonTree::Text(call_text(outcome).0))],
        ),
{
    reveal_strlit("initialize");
    reveal_strlit("ping");
    reveal_strlit("tools/list");
    reveal_strlit("tools/call");
    assert("tools/call"@[0] != "initialize"@[0]);
    assert("tools/call"@[0] != "ping"@[0]);
    assert("tools/call"@[6] != "tools/list"@[6]);
}

/// Every message without an id, and every notification, is accepted without a body.
pub proof fn notifications_get_no_answer(msg: JsonTree)
    requires
        member(msg, "id"@) is None || begins_with(method_of(msg), "notifications/"@),
    ensures
        message_step(Ok(msg)) == RpcStepModel::Reply(
            RpcReplyModel { status: 202, body: None, starts_session: false },
        ),
{
}

/// The MCP endpoints refuse what `/invoke` refuses, with the same answer.
pub proof fn token_protects_the_endpoints(
    authorization: Option<&str>,
    token: Option<String>,
    body: Seq<u8>,
)
    requires
        !let_in(authorization, token),
    ensures
        entry_step(authorization, token, body) == RpcStepModel::Reply(
            RpcReplyModel { status: 401, body: Some(refusal().body), starts_session: false },
        ),
{
}

proof fn numerals_have_no_dash(n: nat)
    ensures
        !numeral(n, 16).contains('-'),
        numeral(n, 16).len() >= 1,
    decreases n,
{
    if n < 16 {
        digits_differ(n, n);
    } else {
        vstd::arithmetic::div_mod::lemma_div_decreases(n as int, 16);
        numerals_have_no_dash(n / 16);
        digits_differ(n % 16, n % 16);
        let s = numeral(n, 16);
        let rest = numeral(n / 16, 16);
        if s.contains('-') {
            let i = s.index_of('-');
            if i < rest.len() {
                assert(rest[i] == '-');
            }
        }
    }
}

/// Different numbers have different numerals.
proof fn numerals_differ(a: nat, b: nat)
    requires
        numeral(a, 16) == numeral(b, 16),
    ensures
        a == b,
    decreases a,
{
    let s = numeral(a, 16);
    let t = numeral(b, 16);
    assert(s.last() == t.last());
    if a < 16 && b < 16 {
        digits_differ(a, b);
    } else if a >= 16 && b >= 16 {
        vstd::arithmetic::div_mod::lemma_div_decreases(a as int, 16);
        digits_differ(a % 16, b % 16);
        assert(s.drop_last() =~= numeral(a / 16, 16));
        assert(t.drop_last() =~= numeral(b / 16, 16));
        numerals_differ(a / 16, b / 16);
    } else if a < 16 {
        numerals_have_no_dash(b / 16);
    } else {
        numerals_have_no_dash(a / 16);
    }
}

/// A text before a dash ends at the first dash.
proof fn parts_differ(a: Seq<char>, rest_a: Seq<char>, b: Seq<char>, rest_b: Seq<char>)
    requires
        !a.contains('-'),
        !b.contains('-'),
        a.push('-') + rest_a == b.push('-') + rest_b,
    ensures
        a == b,
        rest_a == rest_b,
{
    let s = a.push('-') + rest_a;
    let t = b.push('-') + rest_b;
    if a.len() < b.len() {
        assert(s[a.len() as int] == '-');
        assert(b[a.len() as int] == '-');
    } else if b.len() < a.len() {
        assert(t[b.len() as int] == '-');
        assert(a[b.len() as int] == '-');
    }
    assert forall|i: int| 0 <= i < a.len() implies a[i] == b[i] by {
        assert(s[i] == t[i]);
    }
    assert(a =~= b);
    let n = a.len() + 1;
    assert(s.skip(n as int) =~= rest_a);
    assert(t.skip(n as int) =~= rest_b);
}

/// Sessions have different ids: ids are the same only where time, process and
/// number are.
pub proof fn session_ids_differ(
    nanos: u128,
    pid: u32,
    seq: u64,
    other_nanos: u128,
    other_pid: u32,
    other_seq: u64,
)
    requires
        session_text(nanos, pid, seq) == session_text(other_nanos, other_pid, other_seq),
    ensures
        nanos == other_nanos,
        pid == other_pid,
        seq == other_seq,
{
    reveal_strlit("mcp-");
    reveal_strlit("-");
    let n = numeral(nanos as nat, 16);
    let p = numeral(pid as nat, 16);
    let q = numeral(seq as nat, 16);
    let on = numeral(other_nanos as nat, 16);
    let op = numeral(other_pid as nat, 16);
    let oq = numeral(other_seq as nat, 16);
    numerals_have_no_dash(nanos as nat);
    numerals_have_no_dash(pid as nat);
    numerals_have_no_dash(other_nanos as nat);
    numerals_have_no_dash(other_pid as nat);
    assert("-"@ =~= seq!['-']);
    let tail = p.push('-') + q;
    let other_tail = op.push('-') + oq;
    let s = session_text(nanos, pid, seq);
    let t = session_text(other_nanos, other_pid, other_seq);
    assert(s =~= "mcp-"@ + (n.push('-') + tail));
    assert(t =~= "mcp-"@ + (on.push('-') + other_tail));
    assert(s.skip(4) =~= n.push('-') + tail);
    assert(t.skip(4) =~= on.push('-') + other_tail);
    parts_differ(n, tail, on, other_tail);
    parts_differ(p, q, op, oq);
    numerals_differ(nanos as nat, other_nanos as nat);
    numerals_differ(pid as nat, other_pid as nat);
    numerals_differ(seq as nat, other_seq as nat);
}

proof fn methods_differ()
    ensures
        "initialize"@ != "ping"@,
        "initialize"@ != "tools/list"@,
        "initialize"@ != "tools/call"@,
        "ping"@ != "tools/list"@,
        "ping"@ != "tools/call"@,
        "tools/list"@ != "tools/call"@,
        "scan"@ != "baseline_check"@,
        "scan"@ != "report"@,
        "baseline_check"@ != "report"@,
{
    reveal_strlit("initialize");
    reveal_strlit("ping");
    reveal_strlit("tools/list");
    reveal_strlit("tools/call");
    reveal_strlit("scan");
    reveal_strlit("baseline_check");
    reveal_strlit("report");
    assert("initialize"@[0] != "ping"@[0]);
    assert("initialize"@[0] != "tools/list"@[0]);
    assert("initialize"@[0] != "tools/call"@[0]);
    assert("ping"@[0] != "tools/list"@[0]);
    assert("ping"@[0] != "tools/call"@[0]);
    assert("tools/list"@[6] != "tools/call"@[6]);
    assert("scan"@[0] != "baseline_check"@[0]);
    assert("scan"@[0] != "report"@[0]);
    assert("baseline_check"@[0] != "report"@[0]);
}

/// A document of JSON-RPC with a result, or with an error.
pub open spec fn rpc_document(id: JsonTree, key: Seq<char>, value: JsonTree) -> JsonTree {
    sorted(
        JsonTree::Object(
            seq![("jsonrpc"@, JsonTree::Text("2.0"@)), ("id"@, id), (key, value)],
        ),
    )
}

/// An error of JSON-RPC: a number and a message.
pub open spec fn rpc_fault(code: int, message: Seq<char>) -> JsonTree {
    JsonTree::Object(
        seq![("code"@, JsonTree::Int(code)), ("message"@, JsonTree::Text(message))],
    )
}

/// Whether a step answers with status 200 and a document, without starting a session.
pub open spec fn answers(step: RpcStep, document: JsonTree) -> bool {
    step matches RpcStep::Reply(reply) && reply.status == 200 && (reply.body matches Some(j) && j@
        == document) && !reply.starts_session
}

/// Whatever a message that asks for an answer comes to: `ping` an empty result,
/// `tools/call` the action that is named, or an error that names what was asked for, any
/// method that is not known an error that names it. The answer bears the id of the message.
pub proof fn requests_are_answered(
    msg: Json,
    r: RpcStep,
    id: JsonTree,
    method: Seq<char>,
)
    requires
        call_ensures(handle_message, (Ok(msg),), r),
        member(msg@, "id"@) == Some(id),
        member(msg@, "method"@) == Some(JsonTree::Text(method)),
        !begins_with(method, "notifications/"@),
    ensures
        method == "ping"@ ==> answers(
            r,
            rpc_document(id, "result"@, JsonTree::Object(Seq::empty())),
        ),
        method == "tools/call"@ ==> {
            let name = match member(msg@, "params"@) {
                Some(p) => match member(p, "name"@) {
                    Some(JsonTree::Text(s)) => s,
                    _ => Seq::empty(),
                },
                None => Seq::empty(),
            };
            if name == "scan"@ {
                r matches RpcStep::Call { id: i, action } && i@ == id && action == Action::Scan
            } else if name == "baseline_check"@ {
                r matches RpcStep::Call { id: i, action } && i@ == id && action
                    == Action::BaselineCheck
            } else if name == "report"@ {
                r matches RpcStep::Call { id: i, action } && i@ == id && action == Action::Report
            } else {
                answers(
                    r,
                    rpc_document(
                        id,
                        "error"@,
                        rpc_fault(-32602, "tool not found: '"@ + name + "'"@),
                    ),
                )
            }
        },
        method != "initialize"@ && method != "ping"@ && method != "tools/list"@ && method
            != "tools/call"@ ==> answers(
            r,
            rpc_document(
                id,
                "error"@,
                rpc_fault(-32601, "method not found: '"@ + method + "'"@),
            ),
        ),
{
    methods_differ();
    assert(!is_notification(msg@));
    assert(member(JsonTree::Null, "name"@) is None);
    assert(r@ == request_step(id, method, params_of(msg@)));
}

/// Whatever `initialize` comes to: an answer with status 200 that starts a session, with
/// the version of the client where the server speaks it and else the latest, and with the
/// name of the server.
pub proof fn initialize_starts_a_session(msg: Json, r: RpcStep, id: JsonTree)
    requires
        call_ensures(handle_message, (Ok(msg),), r),
        member(msg@, "id"@) == Some(id),
        member(msg@, "method"@) == Some(JsonTree::Text("initialize"@)),
    ensures
        ({
            let client = match member(msg@, "params"@) {
                Some(p) => match member(p, "protocolVersion"@) {
                    Some(JsonTree::Text(s)) => s,
                    _ => Seq::empty(),
                },
                None => Seq::empty(),
            };
            let version = if client == "2024-11-05"@ || client == "2025-03-26"@ {
                client
            } else {
                "2025-06-18"@
            };
            r matches RpcStep::Reply(reply) && reply.status == 200 && reply.starts_session && (
            reply.body matches Some(j) && j@ == rpc_document(
                id,
                "result"@,
                JsonTree::Object(
                    seq![
                        ("protocolVersion"@, JsonTree::Text(version)),
                        (
                            "capabilities"@,
                            JsonTree::Object(
                                seq![
                                    (
                                        "tools"@,
                                        JsonTree::Object(
                                            seq![("listChanged"@, JsonTree::Bool(false))],
                                        ),
                                    ),
                                ],
                            ),
                        ),
                        (
                            "serverInfo"@,
                            JsonTree::Object(
                                seq![
                                    ("name"@, JsonTree::Text("adonword"@)),
                                    ("version"@, JsonTree::Text("0.1.0"@)),
                                ],
                            ),
                        ),
                    ],
                ),
            ))
        }),
{
    methods_differ();
    reveal_strlit("initialize");
    reveal_strlit("notifications/");
    assert("initialize"@.take(1)[0] != "notifications/"@.take(1)[0]);
    assert(!begins_with("initialize"@, "notifications/"@)) by {
        assert("notifications/"@.len() > "initialize"@.len());
    }
    assert(!is_notification(msg@));
    assert(member(JsonTree::Null, "protocolVersion"@) is None);
    assert(r@ == request_step(id, "initialize"@, params_of(msg@)));
}

/// Whatever `tools/list` comes to lists the tools `scan`, `baseline_check` and `report`,
/// in that order, each with a description and a schema without parameters.
pub proof fn tools_are_listed(msg: Json, r: RpcStep, id: JsonTree, i: int)
    requires
        call_ensures(handle_message, (Ok(msg),), r),
        member(msg@, "id"@) == Some(id),
        member(msg@, "method"@) == Some(JsonTree::Text("tools/list"@)),
        0 <= i < 3,
    ensures
        exists|list: Seq<JsonTree>|
            {
                let t = #[trigger] list[i];
                &&& answers(
                    r,
                    rpc_document(
                        id,
                        "result"@,
                        JsonTree::Object(seq![("tools"@, JsonTree::Array(list))]),
                    ),
                )
                &&& list.len() == 3
                &&& member(t, "name"@) == Some(
                    JsonTree::Text(
                        if i == 0 {
                            "scan"@
                        } else if i == 1 {
                            "baseline_check"@
                        } else {
                            "report"@
                        },
                    ),
                )
                &&& member(t, "description"@) matches Some(JsonTree::Text(_))
                &&& member(t, "inputSchema"@) == Some(
                    JsonTree::Object(
                        seq![
                            ("type"@, JsonTree::Text("object"@)),
                            ("properties"@, JsonTree::Object(Seq::empty())),
                        ],
                    ),
                )
            },
{
    methods_differ();
    names_differ();
    reveal_strlit("tools/list");
    reveal_strlit("notifications/");
    assert(!begins_with("tools/list"@, "notifications/"@)) by {
        assert("notifications/"@.len() > "tools/list"@.len());
    }
    assert(!is_notification(msg@));
    assert(r@ == request_step(id, "tools/list"@, params_of(msg@)));
    let list = tool_models().map_values(|t: ToolModel| tool_tree(t));
    let s = list[i]->Object_0;
    assert(list[i] == tool_tree(tool_models()[i]));
    assert(s[0].0 == "name"@ && s[1].0 == "description"@ && s[2].0 == "inputSchema"@);
    lookup_distinct(s, 0);
    lookup_distinct(s, 1);
    lookup_distinct(s, 2);
}

/// Whatever a message that is no JSON comes to is an error without an id; one that is a
/// notification, or has no id, is accepted without an answer.
pub proof fn what_is_no_request_is_told(
    error: String,
    r: RpcStep,
    msg: Json,
    q: RpcStep,
)
    requires
        call_ensures(handle_message, (Err(error),), r),
        call_ensures(handle_message, (Ok(msg),), q),
        member(msg@, "id"@) is None || (member(msg@, "method"@) matches Some(JsonTree::Text(m))
            && begins_with(m, "notifications/"@)),
    ensures
        answers(
            r,
            rpc_document(
                JsonTree::Null,
                "error"@,
                rpc_fault(-32700, "parse error: "@ + error@),
            ),
        ),
        q matches RpcStep::Reply(reply) && reply.status == 202 && reply.body is None
            && !reply.starts_session,
{
    assert(q@ == message_step(Ok(msg@)));
}

/// Whatever an MCP endpoint comes to: 401 for a request that is not let in, else what the
/// message in its body comes to.
pub proof fn endpoints_hand_messages_on(
    authorization: Option<&str>,
    state: &AppState,
    body: &[u8],
    r: RpcStep,
    parsed: Result<Json, String>,
    q: RpcStep,
)
    requires
        call_ensures(rpc_entry, (authorization, state, body), r),
        call_ensures(parse_json, (body,), parsed),
        call_ensures(handle_message, (parsed,), q),
    ensures
        ({
            let refused = state.token matches Some(t) && !(authorization matches Some(v) && v@
                == "Bearer "@ + t@);
            &&& !refused ==> r@ == q@
            &&& refused ==> (r matches RpcStep::Reply(reply) && reply.status == 401
                && !reply.starts_session && (reply.body matches Some(j) && j@
                == JsonTree::Object(
                seq![("error"@, JsonTree::Text("missing or invalid bearer token"@))],
            )))
        }),
{
}

/// Whatever a tool call is answered with bears the id of the call and one text: the
/// document that the action gave, or the message of what failed, marked as an error.
pub proof fn calls_are_answered(id: Json, outcome: Result<Json, ActionError>, r: RpcReply)
    requires
        call_ensures(call_reply, (id, outcome), r),
    ensures
        ({
            let (text, failed) = match outcome {
                Ok(j) => (compact_text(j@), false),
                Err(ActionError::Bad(m)) => (m@, true),
                Err(ActionError::Internal(m)) => (m@, true),
            };
            r.status == 200 && !r.starts_session && (r.body matches Some(j) && j@
                == rpc_document(
                id@,
                "result"@,
                JsonTree::Object(
                    seq![
                        (
                            "content"@,
                            JsonTree::Array(
                                seq![
                                    JsonTree::Object(
                                        seq![
                                            ("type"@, JsonTree::Text("text"@)),
                                            ("text"@, JsonTree::Text(text)),
                                        ],
                                    ),
                                ],
                            ),
                        ),
                        ("isError"@, JsonTree::Bool(failed)),
                    ],
                ),
            ))
        }),
{
    assert(r@ == answer(ok_tree(id@, call_tree(action_outcome(outcome)))));
}

/// Whatever `negotiate_version` gives is the version of the client where the server
/// speaks it, and else the latest.
pub proof fn the_client_chooses_the_version(client: &str, r: &'static str)
    requires
        call_ensures(negotiate_version, (client,), r),
    ensures
        client@ == "2024-11-05"@ || client@ == "2025-03-26"@ || client@ == "2025-06-18"@ ==> r@
            == client@,
        !(client@ == "2024-11-05"@ || client@ == "2025-03-26"@) ==> r@ == "2025-06-18"@,
{
}

/// Whatever id a session gets tells the time, the process and the number of the session,
/// in hexadecimal, with dashes between them.
pub proof fn session_ids_tell_all(nanos: u128, pid: u32, seq: u64, r: String)
    requires
        call_ensures(gen_session_id, (nanos, pid, seq), r),
    ensures
        r@ == "mcp-"@ + numeral(nanos as nat, 16) + "-"@ + numeral(pid as nat, 16) + "-"@
            + numeral(seq as nat, 16),
{
}

} // verus!
