use adonword::baseline::{update, Snapshot};
use adonword::config::{Config, PortsConfig, WatchConfig};
use adonword::engine::{Observed, ScanResult};
use adonword::failure::Failure;
use adonword::json::{parse_json, render_compact, Json};
use adonword::mcp::{
    call_reply, gen_session_id, handle_message, negotiate_version, rpc_entry, rpc_err, rpc_ok,
    tools, RpcReply, RpcStep,
};
use adonword::paths::Dir;
use adonword::serve::{
    action_reply, authorized, check_outcome, dispatch_action, health, invoke, report_outcome,
    report_reply, report_request, requested_action, scan_outcome, stored_report, unauthorized,
    Action, ActionError, AppState,
};
use adonword::sockets::{TcpSocket, TcpState};
use adonword::state::save_scan;
use adonword::watch::scan_once;
use serde_json::Value;

/// A server with files that it watches and what it has stored.
struct Server {
    state: AppState,
    files: Vec<(String, Vec<u8>)>,
    baseline: Option<String>,
    scan: Option<String>,
}

fn data() -> Dir {
    Dir::new("/data", '/')
}

fn server(files: &[(&str, &[u8])], token: Option<&str>) -> Server {
    let cfg = Config {
        watch: WatchConfig {
            paths: vec!["/w".to_string()],
            exclude: vec![],
        },
        ports: PortsConfig {
            allowed: vec![],
            alert_unlisted: true,
        },
        ..Config::default()
    };
    Server {
        state: AppState {
            cfg,
            data_dir: data(),
            token: token.map(|t| t.to_string()),
        },
        files: files
            .iter()
            .map(|(n, b)| (n.to_string(), b.to_vec()))
            .collect(),
        baseline: None,
        scan: None,
    }
}

impl Server {
    fn snapshot(&self) -> Snapshot {
        let mut out = Snapshot::new(vec![]);
        for (name, bytes) in &self.files {
            out = out.record(name, 1, Ok(bytes.clone()));
        }
        out
    }

    fn update(&mut self) {
        self.baseline = Some(update(self.snapshot()).0.to_text());
    }

    fn observed(&self) -> Observed {
        Observed {
            snapshot: self.snapshot(),
            processes: vec![("init".to_string(), 1)],
            sockets: Ok(vec![TcpSocket {
                state: TcpState::Listen,
                addr: "127.0.0.1".to_string(),
                port: 8754,
                pids: vec![],
            }]),
        }
    }

    fn perform(&mut self, action: Action) -> Result<Json, ActionError> {
        match action {
            Action::Scan => {
                let round = scan_once(
                    &self.state.cfg,
                    &self.state.data_dir,
                    Ok(self.baseline.clone()),
                    &self.observed(),
                );
                scan_outcome(match round {
                    Ok(r) => {
                        self.scan = Some(r.text);
                        Ok(r.result)
                    }
                    Err(e) => Err(e),
                })
            }
            Action::BaselineCheck => {
                check_outcome(&self.state, Ok(self.baseline.clone()), &self.snapshot())
            }
            Action::Report => report_outcome(&self.state, Ok(self.scan.clone())),
        }
    }

    fn invoke(&mut self, authorization: Option<&str>, body: Option<&str>) -> (u16, Value) {
        let parsed = body.and_then(|b| parse_json(b.as_bytes()).ok());
        let reply = match invoke(authorization, &self.state, parsed.as_ref()) {
            Ok(action) => action_reply(self.perform(action)),
            Err(reply) => reply,
        };
        (reply.status, value(&reply.body))
    }

    fn report(&mut self, authorization: Option<&str>) -> (u16, Value) {
        let reply = match report_request(authorization, &self.state) {
            Ok(_) => report_reply(&self.state, Ok(self.scan.clone())),
            Err(reply) => reply,
        };
        (reply.status, value(&reply.body))
    }

    fn rpc(&mut self, authorization: Option<&str>, message: &str) -> RpcReply {
        match rpc_entry(authorization, &self.state, message.as_bytes()) {
            RpcStep::Reply(reply) => reply,
            RpcStep::Call { id, action } => call_reply(id, self.perform(action)),
        }
    }

    fn call(&mut self, authorization: Option<&str>, id: i64, name: &str, args: &str) -> Value {
        let message = format!(
            "{{\"jsonrpc\":\"2.0\",\"id\":{id},\"method\":\"tools/call\",\
             \"params\":{{\"name\":\"{name}\",\"arguments\":{args}}}}}"
        );
        body(&self.rpc(authorization, &message))["result"].clone()
    }
}

fn value(j: &Json) -> Value {
    match serde_json::from_str(&render_compact(j)) {
        Ok(v) => v,
        Err(e) => panic!("{e}"),
    }
}

fn body(reply: &RpcReply) -> Value {
    match &reply.body {
        Some(j) => value(j),
        None => Value::Null,
    }
}

fn payload(result: &Value) -> Value {
    let text = result["content"][0]["text"].as_str().expect("text content");
    serde_json::from_str(text).expect("tool payload is JSON")
}

fn step(message: &str) -> RpcStep {
    handle_message(parse_json(message.as_bytes()))
}

fn replied(step: RpcStep) -> RpcReply {
    match step {
        RpcStep::Reply(reply) => reply,
        RpcStep::Call { .. } => panic!("an answer was expected"),
    }
}

const INITIALIZE: &str = r#"{"jsonrpc":"2.0","id":1,"method":"initialize","params":{"protocolVersion":"2025-03-26","capabilities":{}}}"#;

#[test]
fn registry_has_three_parameterless_tools() {
    let tools = tools();
    assert_eq!(tools.len(), 3);
    let names: Vec<&str> = tools.iter().map(|t| t.name).collect();
    assert_eq!(names, vec!["scan", "baseline_check", "report"]);
    for tool in tools {
        assert_eq!(value(&tool.input_schema)["type"], "object");
        assert!(!tool.description.is_empty());
    }
}

#[test]
fn negotiate_echoes_supported_client_versions() {
    assert_eq!(negotiate_version("2024-11-05"), "2024-11-05");
    assert_eq!(negotiate_version("2025-03-26"), "2025-03-26");
    assert_eq!(negotiate_version("1999-01-01"), "2025-06-18");
    assert_eq!(negotiate_version(""), "2025-06-18");
}

#[test]
fn handshake_tools_list_and_full_baseline_scan_report_chain() {
    let mut server = server(&[("a.txt", b"v1")], None);
    server.update();

    let reply = server.rpc(None, INITIALIZE);
    assert_eq!(reply.status, 200);
    assert!(reply.starts_session);
    assert_eq!(body(&reply)["result"]["serverInfo"]["name"], "adonword");
    assert_eq!(body(&reply)["result"]["protocolVersion"], "2025-03-26");

    // Notifications are accepted silently.
    let reply = server.rpc(
        None,
        r#"{"jsonrpc":"2.0","method":"notifications/initialized"}"#,
    );
    assert_eq!(reply.status, 202);
    assert_eq!(body(&reply), Value::Null);

    // tools/list: three parameterless tools with schemas.
    let reply = server.rpc(
        None,
        r#"{"jsonrpc":"2.0","id":2,"method":"tools/list","params":{}}"#,
    );
    let listed = body(&reply);
    let tools = listed["result"]["tools"].as_array().expect("tools");
    let names: Vec<&str> = tools
        .iter()
        .map(|t| t["name"].as_str().expect("name"))
        .collect();
    assert_eq!(names, vec!["scan", "baseline_check", "report"]);
    for tool in tools {
        assert_eq!(tool["inputSchema"]["type"], "object");
        assert!(!tool["description"].as_str().expect("text").is_empty());
    }

    // report before any scan -> no_report
    let result = server.call(None, 3, "report", "{}");
    assert_eq!(result["isError"], false);
    assert_eq!(payload(&result)["status"], "no_report");

    // baseline_check on an untouched tree -> clean
    let result = server.call(None, 4, "baseline_check", "{}");
    assert_eq!(result["isError"], false);
    assert_eq!(payload(&result)["status"], "clean");

    // scan -> findings include the serve socket itself (empty allowlist)
    let result = server.call(None, 5, "scan", "{}");
    assert_eq!(result["isError"], false, "{}", result);
    let v = payload(&result);
    assert!(v["scanned_at"].is_string());
    assert!(
        v["findings"]
            .as_array()
            .expect("findings")
            .iter()
            .any(|f| f["kind"] == "unlisted_port"),
        "response: {v}"
    );

    // report now reflects the persisted scan
    let result = server.call(None, 6, "report", "{}");
    assert_eq!(result["isError"], false);
    let v = payload(&result);
    assert_eq!(v["status"], "ok");
    assert!(v["report"]["findings"].as_array().is_some());

    // tamper the watched tree -> baseline_check drifts to changed/modified
    server.files[0].1 = b"tampered".to_vec();
    let result = server.call(None, 7, "baseline_check", "{}");
    assert_eq!(result["isError"], false);
    let v = payload(&result);
    assert_eq!(v["status"], "changed");
    assert_eq!(v["modified"], Value::from(vec!["a.txt"]));

    // unknown action name via tools/call
    let reply = server.rpc(
        None,
        r#"{"jsonrpc":"2.0","id":8,"method":"tools/call","params":{"name":"kill_process","arguments":{}}}"#,
    );
    assert_eq!(body(&reply)["error"]["code"], -32602);
}

#[test]
fn protocol_errors_and_argument_tolerance() {
    let mut server = server(&[], None);
    assert_eq!(server.rpc(None, INITIALIZE).status, 200);

    // Unknown method -> -32601; ping -> {}.
    let reply = server.rpc(None, r#"{"jsonrpc":"2.0","id":10,"method":"resources/list"}"#);
    assert_eq!(body(&reply)["error"]["code"], -32601);
    let reply = server.rpc(None, r#"{"jsonrpc":"2.0","id":11,"method":"ping"}"#);
    assert_eq!(body(&reply)["result"], Value::Object(serde_json::Map::new()));

    // The tools are parameterless: junk arguments are tolerated and ignored.
    let result = server.call(None, 12, "scan", r#"{"bogus":1,"target":"x"}"#);
    assert_eq!(result["isError"], false, "{}", result);
    assert!(payload(&result)["scanned_at"].is_string());

    // baseline_check without a baseline -> status "missing", not an error.
    let result = server.call(None, 13, "baseline_check", "{}");
    assert_eq!(result["isError"], false);
    assert_eq!(payload(&result)["status"], "missing");
}

#[test]
fn token_protects_mcp_endpoint_too() {
    let mut server = server(&[], Some("sekrit"));

    // Without the bearer token the MCP endpoint answers 401 like /invoke.
    let reply = server.rpc(None, r#"{"jsonrpc":"2.0","id":1,"method":"ping"}"#);
    assert_eq!(reply.status, 401);
    assert_eq!(body(&reply)["error"], "missing or invalid bearer token");

    // With the token the handshake succeeds and a call works.
    let bearer = Some("Bearer sekrit");
    let reply = server.rpc(bearer, INITIALIZE);
    assert_eq!(reply.status, 200);
    assert_eq!(body(&reply)["result"]["serverInfo"]["name"], "adonword");
    assert!(reply.starts_session);

    let result = server.call(bearer, 2, "baseline_check", "{}");
    assert_eq!(result["isError"], false);
    assert_eq!(payload(&result)["status"], "missing");
}

#[test]
fn root_endpoint_serves_mcp_too() {
    let mut server = server(&[], None);
    let reply = server.rpc(None, INITIALIZE);
    assert_eq!(reply.status, 200);
    assert_eq!(body(&reply)["result"]["serverInfo"]["name"], "adonword");
}

#[test]
fn serve_health_invoke_and_token_auth() {
    let mut server = server(&[("a.txt", b"x")], None);
    server.update();
    assert_eq!(health().text(), r#"{"ok":true}"#);

    let (status, resp) = server.invoke(
        None,
        Some(
            r#"{"tool_id":"tid","tool":"adonword","invoked_by":"integration-test","params":{"action":"baseline_check"}}"#,
        ),
    );
    assert_eq!(status, 200);
    assert_eq!(resp["status"], "clean", "response: {resp}");

    let (_, resp) = server.invoke(None, Some(r#"{"params":{"action":"scan"}}"#));
    assert!(
        resp["findings"]
            .as_array()
            .expect("findings")
            .iter()
            .any(|f| f["kind"] == "unlisted_port"),
        "response: {resp}"
    );

    let (_, resp) = server.report(None);
    assert_eq!(resp["status"], "ok");
    assert!(resp["report"]["findings"].as_array().is_some());

    let (status, _) = server.invoke(None, Some(r#"{"params":{"action":"nonsense"}}"#));
    assert_eq!(status, 400);

    server.state.token = Some("sekrit".to_string());

    // /report without token -> 401
    let (status, _) = server.report(None);
    assert_eq!(status, 401);
    // with the correct bearer token -> 200
    let (status, resp) = server.report(Some("Bearer sekrit"));
    assert_eq!(status, 200);
    assert_eq!(resp["status"], "ok");
    assert!(!authorized(None, &server.state));
    assert_eq!(unauthorized().status, 401);
    assert!(authorized(Some("Bearer sekrit"), &server.state));
    let (status, resp) = server.invoke(None, Some(r#"{"params":{"action":"scan"}}"#));
    assert_eq!(status, 401);
    assert_eq!(resp["error"], "missing or invalid bearer token");
}

#[test]
fn only_the_exact_header_is_let_in() {
    let state = server(&[], Some("t")).state;
    assert!(!authorized(Some("Bearer t "), &state));
    assert!(!authorized(Some("bearer t"), &state));
    assert!(!authorized(Some("t"), &state));
    assert!(!authorized(Some("Bearer "), &state));
    let open = server(&[], None).state;
    assert!(authorized(None, &open));
    assert!(authorized(Some("Bearer x"), &open));
}

#[test]
fn the_action_falls_back_to_the_tool() {
    let name = |text: &str| match parse_json(text.as_bytes()) {
        Ok(j) => requested_action(Some(&j)),
        Err(e) => panic!("{e}"),
    };
    assert_eq!(name(r#"{"params":{"action":"scan","tool":"report"}}"#), "scan");
    assert_eq!(name(r#"{"params":{"tool":"report"}}"#), "report");
    assert_eq!(name(r#"{"params":{"action":1,"tool":"report"}}"#), "report");
    assert_eq!(name(r#"{"tool":"report"}"#), "");
    assert_eq!(name("[]"), "");
    assert_eq!(requested_action(None), "");
}

#[test]
fn unknown_actions_are_named_in_the_error() {
    assert_eq!(dispatch_action("scan"), Ok(Action::Scan));
    assert_eq!(dispatch_action("baseline_check"), Ok(Action::BaselineCheck));
    assert_eq!(dispatch_action("report"), Ok(Action::Report));
    assert_eq!(
        dispatch_action("kill"),
        Err(ActionError::Bad(
            "unknown action 'kill' — expected one of: scan, baseline_check, report".to_string()
        ))
    );
    let (status, resp) = server(&[], None).invoke(None, None);
    assert_eq!(status, 400);
    assert_eq!(
        resp["error"],
        "unknown action '' — expected one of: scan, baseline_check, report"
    );
}

#[test]
fn failures_are_told_without_their_cause() {
    let mut broken = server(&[], None);
    broken.baseline = Some("nonsense".to_string());
    let (status, resp) = broken.invoke(None, Some(r#"{"params":{"action":"scan"}}"#));
    assert_eq!(status, 500);
    assert_eq!(resp["error"], "failed to parse baseline /data/baseline.json");
    let (status, _) = broken.invoke(None, Some(r#"{"params":{"action":"baseline_check"}}"#));
    assert_eq!(status, 500);
    let result = broken.call(None, 1, "scan", "{}");
    assert_eq!(result["isError"], true);
    assert_eq!(
        result["content"][0]["text"],
        "failed to parse baseline /data/baseline.json"
    );
    let unread = stored_report(&broken.state, Err("denied".to_string()));
    assert_eq!(
        render_compact(&unread),
        r#"{"error":"failed to read /data/state.json","status":"error"}"#
    );
    let unsaved = scan_outcome(Err(Failure::on("failed to write ", "/s", "full".to_string())));
    assert_eq!(
        action_reply(unsaved).text(),
        r#"{"error":"failed to write /s"}"#
    );
}

#[test]
fn answers_have_their_keys_in_order() {
    let mut server = server(&[("a.txt", b"x")], None);
    server.update();
    server.files[0].1 = vec![];
    let outcome = server.perform(Action::BaselineCheck);
    assert_eq!(
        action_reply(outcome).text(),
        r#"{"added":[],"modified":["a.txt"],"removed":[],"status":"changed","warnings":[]}"#
    );
    let text = save_scan(&data(), &ScanResult::at("T".to_string())).1;
    assert_eq!(
        render_compact(&stored_report(&server.state, Ok(Some(text)))),
        r#"{"report":{"findings":[],"scanned_at":"T","summary":{"crit":0,"total":0,"warn":0}},"status":"ok"}"#
    );
    assert_eq!(
        render_compact(&stored_report(&server.state, Ok(None))),
        r#"{"report":null,"status":"no_report"}"#
    );
}

#[test]
fn tool_calls_and_invoke_agree() {
    let mut server = server(&[("a.txt", b"x")], None);
    server.update();
    for name in ["baseline_check", "report"] {
        let (_, by_invoke) =
            server.invoke(None, Some(&format!("{{\"params\":{{\"action\":\"{name}\"}}}}")));
        let by_call = payload(&server.call(None, 1, name, "{}"));
        assert_eq!(by_invoke, by_call);
    }
}

#[test]
fn messages_without_an_id_get_no_answer() {
    for text in [
        r#"{"method":"ping"}"#,
        r#"{"id":1,"method":"notifications/cancelled"}"#,
        "[]",
        "7",
    ] {
        let reply = replied(step(text));
        assert_eq!(reply.status, 202);
        assert!(reply.body.is_none());
        assert!(!reply.starts_session);
    }
}

#[test]
fn ids_are_given_back_as_they_came() {
    let reply = replied(step(r#"{"id":null,"method":"ping"}"#));
    assert_eq!(
        render_compact(&reply.body.expect("body")),
        r#"{"id":null,"jsonrpc":"2.0","result":{}}"#
    );
    let reply = replied(step(r#"{"id":"x-1"}"#));
    assert_eq!(
        render_compact(&reply.body.expect("body")),
        r#"{"error":{"code":-32601,"message":"method not found: ''"},"id":"x-1","jsonrpc":"2.0"}"#
    );
    let reply = replied(step(r#"{"id":2,"method":"tools/call","params":{"name":"rm"}}"#));
    assert_eq!(
        render_compact(&reply.body.expect("body")),
        r#"{"error":{"code":-32602,"message":"tool not found: 'rm'"},"id":2,"jsonrpc":"2.0"}"#
    );
}

#[test]
fn what_is_no_json_is_a_parse_error() {
    let mut server = server(&[], None);
    let reply = server.rpc(None, "{");
    assert_eq!(reply.status, 200);
    let v = body(&reply);
    assert_eq!(v["error"]["code"], -32700);
    assert_eq!(v["id"], Value::Null);
    assert!(v["error"]["message"]
        .as_str()
        .expect("message")
        .starts_with("parse error: "));
}

#[test]
fn the_handshake_tells_what_is_spoken() {
    let reply = replied(step(r#"{"id":1,"method":"initialize"}"#));
    assert_eq!(
        render_compact(&reply.body.expect("body")),
        "{\"id\":1,\"jsonrpc\":\"2.0\",\"result\":{\"capabilities\":{\"tools\":{\"listChanged\":false}},\
         \"protocolVersion\":\"2025-06-18\",\"serverInfo\":{\"name\":\"adonword\",\"version\":\"0.1.0\"}}}"
    );
}

#[test]
fn rpc_frames_have_their_members() {
    assert_eq!(
        render_compact(&rpc_ok(Json::Uint(3), Json::Bool(true))),
        r#"{"id":3,"jsonrpc":"2.0","result":true}"#
    );
    assert_eq!(
        render_compact(&rpc_err(Json::Null, -1, "m".to_string())),
        r#"{"error":{"code":-1,"message":"m"},"id":null,"jsonrpc":"2.0"}"#
    );
}

#[test]
fn sessions_have_different_ids() {
    assert_eq!(gen_session_id(255, 16, 0), "mcp-ff-10-0");
    assert_ne!(gen_session_id(1, 17, 0), gen_session_id(1, 1, 17));
    assert_ne!(gen_session_id(5, 5, 1), gen_session_id(5, 5, 2));
}

#[test]
fn an_action_report_that_cannot_be_read_is_an_internal_error() {
    let mut broken = server(&[], None);
    let unread = report_outcome(&broken.state, Err("denied".to_string()));
    let reply = action_reply(unread);
    assert_eq!(reply.status, 500);
    assert_eq!(reply.text(), r#"{"error":"failed to read /data/state.json"}"#);
    broken.scan = Some("nonsense".to_string());
    let (status, resp) = broken.invoke(None, Some(r#"{"params":{"action":"report"}}"#));
    assert_eq!(status, 500);
    assert_eq!(resp["error"], "failed to parse /data/state.json");
    let result = broken.call(None, 1, "report", "{}");
    assert_eq!(result["isError"], true);
    assert_eq!(result["content"][0]["text"], "failed to parse /data/state.json");
}

#[test]
fn a_report_page_says_what_cannot_be_read() {
    let mut broken = server(&[], None);
    broken.scan = Some("nonsense".to_string());
    let (status, resp) = broken.report(None);
    assert_eq!(status, 200);
    assert_eq!(resp["status"], "error");
    assert_eq!(resp["error"], "failed to parse /data/state.json");
    let reply = report_reply(&broken.state, Err("denied".to_string()));
    assert_eq!(reply.status, 200);
    assert_eq!(
        reply.text(),
        r#"{"error":"failed to read /data/state.json","status":"error"}"#
    );
    let reply = report_reply(&broken.state, Ok(None));
    assert_eq!(reply.status, 200);
    assert_eq!(reply.text(), r#"{"report":null,"status":"no_report"}"#);
}
