//! The rules of the HTTP API: who is let in, which action a request asks for, and
//! what is answered.

use crate::baseline::{baseline_file, check, check_report, entries_of, load, missing_report,
    report_tree, Baseline, CheckReport, Entries, ReportModel, Snapshot};
use crate::codec::{object1, object2};
use crate::config::Config;
use crate::engine::{ScanModel, ScanResult};
use crate::failure::{file_read, Failure, Fault};
use crate::json::{compact_text, member, one_line, render_compact, sort_keys, sorted, text_member,
    Json, JsonTree};
use crate::paths::{Dir, DirModel};
use crate::state::{load_scan, scan_loaded, scan_tree, state_file};
use crate::text::{concat2, concat3, same_text};
use vstd::prelude::*;

verus! {

/// What the server works with.
#[derive(Debug, Clone)]
pub struct AppState {
    pub cfg: Config,
    pub data_dir: Dir,
    pub token: Option<String>,
}

/// An answer: an HTTP status and a JSON body.
pub struct Reply {
    pub status: u16,
    pub body: Json,
}

pub struct ReplyModel {
    pub status: u16,
    pub body: JsonTree,
}

impl View for Reply {
    type V = ReplyModel;

    open spec fn view(&self) -> ReplyModel {
        ReplyModel { status: self.status, body: self.body@ }
    }
}

impl Reply {
    /// The text of the body: a JSON document on one line.
    pub fn text(&self) -> (r: String)
        ensures
            r@ == compact_text(self@.body),
            one_line(r@, self@.body),
    {
        render_compact(&self.body)
    }
}

pub open spec fn error_reply(status: u16, message: Seq<char>) -> ReplyModel {
    ReplyModel { status, body: JsonTree::Object(seq![("error"@, JsonTree::Text(message))]) }
}

fn error_json(status: u16, message: String) -> (r: Reply)
    ensures
        r@ == error_reply(status, message@),
{
    Reply { status, body: object1("error", Json::Text(message)) }
}

// ---------------------------------------------------------------------------
// Access
// ---------------------------------------------------------------------------

/// Whether an `Authorization` header is the one that a token asks for.
pub open spec fn bears(authorization: Option<&str>, token: Seq<char>) -> bool {
    authorization matches Some(value) && value@ == "Bearer "@ + token
}

/// Whether a request is let in: always where no token is set, else only with it.
pub open spec fn let_in(authorization: Option<&str>, token: Option<String>) -> bool {
    token matches Some(t) ==> bears(authorization, t@)
}

pub fn authorized(authorization: Option<&str>, state: &AppState) -> (r: bool)
    ensures
        r == let_in(authorization, state.token),
{
    match &state.token {
        None => true,
        Some(token) => match authorization {
            Some(value) => same_text(value, concat2("Bearer ", token.as_str()).as_str()),
            None => false,
        },
    }
}

/// The answer to a request that is not let in.
pub open spec fn refusal() -> ReplyModel {
    error_reply(401, "missing or invalid bearer token"@)
}

pub fn unauthorized() -> (r: Reply)
    ensures
        r@ == refusal(),
{
    error_json(401, "missing or invalid bearer token".to_string())
}

/// The answer of the liveness probe, which needs no token.
pub fn health() -> (r: Reply)
    ensures
        r@ == (ReplyModel {
            status: 200,
            body: JsonTree::Object(seq![("ok"@, JsonTree::Bool(true))]),
        }),
{
    Reply { status: 200, body: object1("ok", Json::Bool(true)) }
}

// ---------------------------------------------------------------------------
// Actions
// ---------------------------------------------------------------------------

/// What can be asked of the server.
#[derive(Debug, Clone, Copy, PartialEq, Eq, Structural)]
pub enum Action {
    Scan,
    BaselineCheck,
    Report,
}

/// Why an action gave nothing.
#[derive(Debug, Clone, PartialEq, Eq)]
pub enum ActionError {
    /// The request is wrong.
    Bad(String),
    /// The work failed.
    Internal(String),
}

pub enum ActionFault {
    Bad(Seq<char>),
    Internal(Seq<char>),
}

impl View for ActionError {
    type V = ActionFault;

    open spec fn view(&self) -> ActionFault {
        match self {
            ActionError::Bad(m) => ActionFault::Bad(m@),
            ActionError::Internal(m) => ActionFault::Internal(m@),
        }
    }
}

pub open spec fn action_named(name: Seq<char>) -> Option<Action> {
    if name == "scan"@ {
        Some(Action::Scan)
    } else if name == "baseline_check"@ {
        Some(Action::BaselineCheck)
    } else if name == "report"@ {
        Some(Action::Report)
    } else {
        None
    }
}

pub open spec fn unknown_action(name: Seq<char>) -> Seq<char> {
    "unknown action '"@ + name + "' — expected one of: scan, baseline_check, report"@
}

/// The action that a name asks for.
pub open spec fn dispatched(name: Seq<char>) -> Result<Action, ActionFault> {
    match action_named(name) {
        Some(action) => Ok(action),
        None => Err(ActionFault::Bad(unknown_action(name))),
    }
}

/// What came of asking for an action.
pub open spec fn dispatch_of(r: Result<Action, ActionError>) -> Result<Action, ActionFault> {
    match r {
        Ok(action) => Ok(action),
        Err(e) => Err(e@),
    }
}

/// The one way from the name of an action to the action, for all who ask.
pub fn dispatch_action(name: &str) -> (r: Result<Action, ActionError>)
    ensures
        dispatch_of(r) == dispatched(name@),
{
    if same_text(name, "scan") {
        Ok(Action::Scan)
    } else if same_text(name, "baseline_check") {
        Ok(Action::BaselineCheck)
    } else if same_text(name, "report") {
        Ok(Action::Report)
    } else {
        Err(
            ActionError::Bad(
                concat3(
                    "unknown action '",
                    name,
                    "' — expected one of: scan, baseline_check, report",
                ),
            ),
        )
    }
}

/// The parameters of a request: none where the body is missing or no JSON.
pub open spec fn request_params(body: Option<JsonTree>) -> Option<JsonTree> {
    match body {
        Some(t) => member(t, "params"@),
        None => None,
    }
}

/// The name of the action that a request asks for: `params.action`, else
/// `params.tool`, else the empty name.
pub open spec fn requested_name(body: Option<JsonTree>) -> Seq<char> {
    match request_params(body) {
        None => Seq::empty(),
        Some(params) => match text_member(params, "action"@) {
            Some(name) => name,
            None => match text_member(params, "tool"@) {
                Some(name) => name,
                None => Seq::empty(),
            },
        },
    }
}

pub open spec fn body_tree(body: Option<&Json>) -> Option<JsonTree> {
    match body {
        Some(j) => Some(j@),
        None => None,
    }
}

pub fn requested_action(body: Option<&Json>) -> (r: String)
    ensures
        r@ == requested_name(body_tree(body)),
{
    let params: Option<&Json> = match body {
        Some(j) => j.get("params"),
        None => None,
    };
    match params {
        None => String::new(),
        Some(p) => match p.get_str("action") {
            Some(name) => name.to_string(),
            None => match p.get_str("tool") {
                Some(name) => name.to_string(),
                None => String::new(),
            },
        },
    }
}

/// What an `/invoke` request comes to: an action, or the answer that refuses it.
pub open spec fn invoked(
    authorization: Option<&str>,
    token: Option<String>,
    body: Option<JsonTree>,
) -> Result<Action, ReplyModel> {
    if !let_in(authorization, token) {
        Err(refusal())
    } else {
        match dispatched(requested_name(body)) {
            Ok(action) => Ok(action),
            Err(fault) => Err(fault_reply(fault)),
        }
    }
}

/// What came of an `/invoke` request.
pub open spec fn invoke_of(r: Result<Action, Reply>) -> Result<Action, ReplyModel> {
    match r {
        Ok(action) => Ok(action),
        Err(reply) => Err(reply@),
    }
}

/// BIT Remote protocol entry point. Payload:
/// `{"tool_id": "...", "tool": "...", "invoked_by": "...", "params": {...}}`.
/// Routed on `params.action` (fallback `params.tool`):
/// `scan` | `baseline_check` | `report`.
pub fn invoke(authorization: Option<&str>, state: &AppState, body: Option<&Json>) -> (r: Result<
    Action,
    Reply,
>)
    ensures
        invoke_of(r) == invoked(authorization, state.token, body_tree(body)),
{
    if !authorized(authorization, state) {
        return Err(unauthorized());
    }
    let name = requested_action(body);
    match dispatch_action(name.as_str()) {
        Ok(action) => Ok(action),
        Err(e) => Err(action_reply(Err(e))),
    }
}

/// What a GET of `/report` comes to: the report, or the answer that refuses it.
pub open spec fn report_requested(authorization: Option<&str>, token: Option<String>) -> Result<
    Action,
    ReplyModel,
> {
    if let_in(authorization, token) {
        Ok(Action::Report)
    } else {
        Err(refusal())
    }
}

/// Entry point of GET `/report`. Nothing is read where the request is refused.
pub fn report_request(authorization: Option<&str>, state: &AppState) -> (r: Result<Action, Reply>)
    ensures
        invoke_of(r) == report_requested(authorization, state.token),
{
    if authorized(authorization, state) {
        Ok(Action::Report)
    } else {
        Err(unauthorized())
    }
}

// ---------------------------------------------------------------------------
// Outcomes
// ---------------------------------------------------------------------------

/// What an action gives: a document, or why there is none.
pub type Outcome = Result<JsonTree, ActionFault>;

/// What came of an action.
pub open spec fn action_outcome(r: Result<Json, ActionError>) -> Outcome {
    match r {
        Ok(j) => Ok(j@),
        Err(e) => Err(e@),
    }
}

pub open spec fn fault_reply(fault: ActionFault) -> ReplyModel {
    match fault {
        ActionFault::Bad(m) => error_reply(400, m),
        ActionFault::Internal(m) => error_reply(500, m),
    }
}

/// The answer of `/invoke` for what came of an action.
pub open spec fn invoke_reply(outcome: Outcome) -> ReplyModel {
    match outcome {
        Ok(t) => ReplyModel { status: 200, body: t },
        Err(fault) => fault_reply(fault),
    }
}

pub fn action_reply(outcome: Result<Json, ActionError>) -> (r: Reply)
    ensures
        r@ == invoke_reply(action_outcome(outcome)),
{
    match outcome {
        Ok(body) => Reply { status: 200, body },
        Err(ActionError::Bad(m)) => error_json(400, m),
        Err(ActionError::Internal(m)) => error_json(500, m),
    }
}

/// What a scan gives: its result, once stored, or what failed.
pub open spec fn scan_done(r: Result<ScanModel, Fault>) -> Outcome {
    match r {
        Ok(m) => Ok(sorted(scan_tree(m))),
        Err(fault) => Err(ActionFault::Internal(fault.context)),
    }
}

/// What came of a scan and its storing.
pub open spec fn scan_stored(r: Result<ScanResult, Failure>) -> Result<ScanModel, Fault> {
    match r {
        Ok(m) => Ok(m@),
        Err(e) => Err(e@),
    }
}

/// The outcome of `scan`, given the result as stored, or what failed on the way.
pub fn scan_outcome(stored: Result<ScanResult, Failure>) -> (r: Result<Json, ActionError>)
    ensures
        action_outcome(r) == scan_done(scan_stored(stored)),
{
    match stored {
        Ok(result) => Ok(sort_keys(&result.to_json())),
        Err(e) => Err(ActionError::Internal(e.context)),
    }
}

/// What a baseline check gives: a report, which says `missing` where there is no
/// baseline, or why the baseline could not be read.
pub open spec fn check_done(
    data_dir: DirModel,
    file: Result<Option<Seq<char>>, Seq<char>>,
    current: Entries,
    warnings: Seq<Seq<char>>,
) -> Outcome {
    match baseline_file(data_dir, file) {
        Ok(Some(b)) => Ok(sorted(report_tree(check_report(current, b.entries, warnings)))),
        Ok(None) => Ok(sorted(report_tree(missing_report()))),
        Err(fault) => Err(ActionFault::Internal(fault.context)),
    }
}

/// The outcome of `baseline_check`, given what came of reading the baseline file
/// and the current files.
pub fn check_outcome(
    state: &AppState,
    file: Result<Option<String>, String>,
    snapshot: &Snapshot,
) -> (r: Result<Json, ActionError>)
    ensures
        action_outcome(r) == check_done(
            state.data_dir@,
            file_read(file),
            entries_of(snapshot.files@),
            snapshot.all_warnings(),
        ),
{
    match load(&state.data_dir, file) {
        Ok(Some(baseline)) => Ok(sort_keys(&check(snapshot, &baseline).to_json())),
        Ok(None) => Ok(sort_keys(&CheckReport::missing().to_json())),
        Err(e) => Err(ActionError::Internal(e.context)),
    }
}

/// The stored report as a document: the result, that there is none, or why it
/// could not be read.
pub open spec fn stored_tree(r: Result<Option<ScanModel>, Fault>) -> JsonTree {
    match r {
        Ok(Some(m)) => sorted(
            JsonTree::Object(
                seq![("status"@, JsonTree::Text("ok"@)), ("report"@, scan_tree(m))],
            ),
        ),
        Ok(None) => sorted(
            JsonTree::Object(
                seq![("status"@, JsonTree::Text("no_report"@)), ("report"@, JsonTree::Null)],
            ),
        ),
        Err(fault) => sorted(
            JsonTree::Object(
                seq![
                    ("status"@, JsonTree::Text("error"@)),
                    ("error"@, JsonTree::Text(fault.context)),
                ],
            ),
        ),
    }
}

proof fn names_differ()
    ensures
        "status"@ != "report"@,
        "status"@ != "error"@,
{
    reveal_strlit("status");
    reveal_strlit("report");
    reveal_strlit("error");
    assert("status"@[0] != "report"@[0]);
    assert("status"@[0] != "error"@[0]);
}

fn report_document(loaded: Result<Option<ScanResult>, Failure>) -> (r: Json)
    ensures
        r@ == stored_tree(scan_loaded(loaded)),
{
    proof {
        names_differ();
    }
    let document = match loaded {
        Ok(Some(result)) => object2(
            "status",
            Json::Text("ok".to_string()),
            "report",
            result.to_json(),
        ),
        Ok(None) => object2("status", Json::Text("no_report".to_string()), "report", Json::Null),
        Err(e) => object2(
            "status",
            Json::Text("error".to_string()),
            "error",
            Json::Text(e.context),
        ),
    };
    sort_keys(&document)
}

/// The stored report, given what came of reading the state file.
pub fn stored_report(state: &AppState, file: Result<Option<String>, String>) -> (r: Json)
    ensures
        r@ == stored_tree(state_file(state.data_dir@, file_read(file))),
{
    report_document(load_scan(&state.data_dir, file))
}

/// The answer to a GET of `/report` that is let in: always a success, whose body says
/// why where the state file could not be read.
pub open spec fn report_replied(r: Result<Option<ScanModel>, Fault>) -> ReplyModel {
    ReplyModel { status: 200, body: stored_tree(r) }
}

/// The answer to a GET of `/report` that is let in, given what came of reading the
/// state file.
pub fn report_reply(state: &AppState, file: Result<Option<String>, String>) -> (r: Reply)
    ensures
        r@ == report_replied(state_file(state.data_dir@, file_read(file))),
{
    Reply { status: 200, body: stored_report(state, file) }
}

/// What the action `report` gives: the stored report, or that there is none; a state file that
/// cannot be read is an internal error.
pub open spec fn report_done(r: Result<Option<ScanModel>, Fault>) -> Outcome {
    match r {
        Ok(m) => Ok(stored_tree(Ok(m))),
        Err(fault) => Err(ActionFault::Internal(fault.context)),
    }
}

/// The outcome of `report`, given what came of reading the state file.
pub fn report_outcome(state: &AppState, file: Result<Option<String>, String>) -> (r: Result<
    Json,
    ActionError,
>)
    ensures
        action_outcome(r) == report_done(state_file(state.data_dir@, file_read(file))),
{
    match load_scan(&state.data_dir, file) {
        Ok(stored) => Ok(report_document(Ok(stored))),
        Err(e) => Err(ActionError::Internal(e.context)),
    }
}

// ---------------------------------------------------------------------------
// Laws
// ---------------------------------------------------------------------------

/// With a token set, a request that does not bear it is refused whatever it asks
/// for.
pub proof fn wrong_token_is_refused(
    authorization: Option<&str>,
    token: String,
    body: Option<JsonTree>,
)
    requires
        !bears(authorization, token@),
    ensures
        invoked(authorization, Some(token), body) == Err::<Action, ReplyModel>(refusal()),
        report_requested(authorization, Some(token)) == Err::<Action, ReplyModel>(refusal()),
{
}

/// A request that is let in reaches an action exactly if it names one; all others
/// are answered with status 400.
pub proof fn known_names_reach_actions(
    authorization: Option<&str>,
    token: Option<String>,
    body: Option<JsonTree>,
)
    requires
        let_in(authorization, token),
    ensures
        match action_named(requested_name(body)) {
            Some(action) => invoked(authorization, token, body) == Ok::<Action, ReplyModel>(action),
            None => invoked(authorization, token, body) == Err::<Action, ReplyModel>(
                error_reply(400, unknown_action(requested_name(body))),
            ),
        },
{
}

/// A report asked for after a scan was stored is the result of that scan.
pub proof fn report_gives_the_stored_scan(data_dir: DirModel, text: Seq<char>, m: ScanModel)
    requires
        state_file(data_dir, Ok(Some(text))) == Ok::<Option<ScanModel>, Fault>(Some(m)),
    ensures
        report_done(state_file(data_dir, Ok(Some(text)))) == Ok::<JsonTree, ActionFault>(
            sorted(
                JsonTree::Object(
                    seq![("status"@, JsonTree::Text("ok"@)), ("report"@, scan_tree(m))],
                ),
            ),
        ),
        invoke_reply(report_done(state_file(data_dir, Ok(Some(text))))) == report_replied(
            state_file(data_dir, Ok(Some(text))),
        ),
{
}

/// A GET of `/report` succeeds whatever came of reading the state file; where it
/// could not be read, the body says why.
pub proof fn report_page_always_succeeds(r: Result<Option<ScanModel>, Fault>)
    ensures
        report_replied(r).status == 200,
        r matches Err(fault) ==> report_replied(r).body == sorted(
            JsonTree::Object(
                seq![
                    ("status"@, JsonTree::Text("error"@)),
                    ("error"@, JsonTree::Text(fault.context)),
                ],
            ),
        ),
{
}

/// An action that a file cannot be read for is answered with status 500, whichever
/// of the actions it is.
pub proof fn unreadable_files_are_internal_errors(
    data_dir: DirModel,
    error: Seq<char>,
    current: Entries,
    warnings: Seq<Seq<char>>,
)
    ensures
        invoke_reply(report_done(state_file(data_dir, Err(error)))).status == 500,
        invoke_reply(check_done(data_dir, Err(error), current, warnings)).status == 500,
        baseline_file(data_dir, Err(error)) matches Err(fault) && invoke_reply(
            scan_done(Err(fault)),
        ).status == 500,
{
}

/// Whatever `authorized` gives: without a token set everyone is let in; with one, exactly
/// those whose header is `Bearer `, then the token, letter for letter.
pub proof fn a_token_lets_in_its_bearer_only(
    authorization: Option<&str>,
    state: &AppState,
    r: bool,
)
    requires
        call_ensures(authorized, (authorization, state), r),
    ensures
        state.token is None ==> r,
        state.token matches Some(t) ==> (r == (authorization matches Some(v) && v@ == "Bearer "@
            + t@)),
{
}

/// The name of the action that a body asks for.
pub open spec fn asked_for(body: Option<&Json>, name: Seq<char>) -> bool {
    match body {
        None => name.len() == 0,
        Some(j) => match member(j@, "params"@) {
            None => name.len() == 0,
            Some(p) => match (member(p, "action"@), member(p, "tool"@)) {
                (Some(JsonTree::Text(s)), _) => name == s,
                (_, Some(JsonTree::Text(s))) => name == s,
                _ => name.len() == 0,
            },
        },
    }
}

/// Whatever `/invoke` comes to: a request that is not let in is answered with 401; one
/// that names `scan`, `baseline_check` or `report`, as `params.action` or else as
/// `params.tool`, reaches that action; any other is answered with 400, which names what
/// was asked for.
pub proof fn invoke_reaches_what_is_named(
    authorization: Option<&str>,
    state: &AppState,
    body: Option<&Json>,
    r: Result<Action, Reply>,
    name: Seq<char>,
)
    requires
        call_ensures(invoke, (authorization, state, body), r),
        asked_for(body, name),
    ensures
        ({
            let refused = state.token matches Some(t) && !(authorization matches Some(v) && v@
                == "Bearer "@ + t@);
            &&& refused ==> (r matches Err(reply) && says_error(
                reply,
                401,
                "missing or invalid bearer token"@,
            ))
            &&& !refused ==> {
                &&& name == "scan"@ ==> r == Ok::<Action, Reply>(Action::Scan)
                &&& name == "baseline_check"@ ==> r == Ok::<Action, Reply>(Action::BaselineCheck)
                &&& name == "report"@ ==> r == Ok::<Action, Reply>(Action::Report)
                &&& name != "scan"@ && name != "baseline_check"@ && name != "report"@ ==> (
                r matches Err(reply) && says_error(
                    reply,
                    400,
                    "unknown action '"@ + name
                        + "' — expected one of: scan, baseline_check, report"@,
                ))
            }
        }),
{
    actions_differ();
    assert(Seq::<char>::empty().len() == 0);
    if name.len() == 0 {
        assert(name =~= Seq::<char>::empty());
    }
    assert(requested_name(body_tree(body)) == name);
}

proof fn actions_differ()
    ensures
        "scan"@ != "baseline_check"@,
        "scan"@ != "report"@,
        "baseline_check"@ != "report"@,
{
    reveal_strlit("scan");
    reveal_strlit("baseline_check");
    reveal_strlit("report");
    assert("scan"@[0] != "baseline_check"@[0]);
    assert("scan"@[0] != "report"@[0]);
    assert("baseline_check"@[0] != "report"@[0]);
}

/// Whether an answer has a status and says what is wrong.
pub open spec fn says_error(reply: Reply, status: u16, message: Seq<char>) -> bool {
    reply.status == status && reply.body@ == JsonTree::Object(
        seq![("error"@, JsonTree::Text(message))],
    )
}

/// Whatever GET `/report` and the health probe come to: the report for those who are let
/// in, else 401; the probe is always answered.
pub proof fn report_and_health_are_answered(
    authorization: Option<&str>,
    state: &AppState,
    r: Result<Action, Reply>,
    alive: Reply,
)
    requires
        call_ensures(report_request, (authorization, state), r),
        call_ensures(health, (), alive),
    ensures
        ({
            let refused = state.token matches Some(t) && !(authorization matches Some(v) && v@
                == "Bearer "@ + t@);
            &&& refused ==> (r matches Err(reply) && says_error(
                reply,
                401,
                "missing or invalid bearer token"@,
            ))
            &&& !refused ==> r == Ok::<Action, Reply>(Action::Report)
        }),
        alive.status == 200,
        alive.body@ == JsonTree::Object(seq![("ok"@, JsonTree::Bool(true))]),
{
}

/// Whatever an action is answered with: what it gave with 200, a wrong request with 400,
/// work that failed with 500, each with its message.
pub proof fn outcomes_have_their_status(outcome: Result<Json, ActionError>, r: Reply)
    requires
        call_ensures(action_reply, (outcome,), r),
    ensures
        match outcome {
            Ok(j) => r.status == 200 && r.body@ == j@,
            Err(ActionError::Bad(m)) => says_error(r, 400, m@),
            Err(ActionError::Internal(m)) => says_error(r, 500, m@),
        },
{
}

/// Whatever the actions give: `scan` the document of the stored result; `baseline_check`
/// that of the report against the loaded baseline, or one that says `missing`; `report`
/// that of the stored result, or one that says `no_report`. What failed is an error with
/// its context.
pub proof fn actions_give_documents(
    stored: Result<ScanResult, Failure>,
    scanned: Result<Json, ActionError>,
    state: &AppState,
    file: Result<Option<String>, String>,
    loaded: Result<Option<ScanResult>, Failure>,
    reported: Result<Json, ActionError>,
    page: Reply,
)
    requires
        call_ensures(scan_outcome, (stored,), scanned),
        call_ensures(load_scan, (&state.data_dir, file), loaded),
        call_ensures(report_outcome, (state, file), reported),
        call_ensures(report_reply, (state, file), page),
    ensures
        match stored {
            Ok(m) => scanned matches Ok(j) && j@ == sorted(scan_tree(m@)),
            Err(e) => scanned matches Err(ActionError::Internal(s)) && s@ == e.context@,
        },
        page.status == 200,
        match loaded {
            Ok(Some(m)) => {
                let t = sorted(
                    JsonTree::Object(
                        seq![("status"@, JsonTree::Text("ok"@)), ("report"@, scan_tree(m@))],
                    ),
                );
                (reported matches Ok(j) && j@ == t) && page.body@ == t
            },
            Ok(None) => {
                let t = sorted(
                    JsonTree::Object(
                        seq![
                            ("status"@, JsonTree::Text("no_report"@)),
                            ("report"@, JsonTree::Null),
                        ],
                    ),
                );
                (reported matches Ok(j) && j@ == t) && page.body@ == t
            },
            Err(e) => (reported matches Err(ActionError::Internal(s)) && s@ == e.context@)
                && page.body@ == sorted(
                JsonTree::Object(
                    seq![
                        ("status"@, JsonTree::Text("error"@)),
                        ("error"@, JsonTree::Text(e.context@)),
                    ],
                ),
            ),
        },
{
}

/// Whatever `baseline_check` gives is the document of what a check against the loaded
/// baseline reports; without a baseline, one that says `missing` and lists nothing.
pub proof fn a_baseline_check_is_a_check(
    state: &AppState,
    file: Result<Option<String>, String>,
    snapshot: &Snapshot,
    r: Result<Json, ActionError>,
    base: Result<Option<Baseline>, Failure>,
    report: CheckReport,
)
    requires
        call_ensures(check_outcome, (state, file, snapshot), r),
        call_ensures(load, (&state.data_dir, file), base),
        base matches Ok(Some(b)) ==> call_ensures(check, (snapshot, &b), report),
    ensures
        match base {
            Ok(Some(_)) => r matches Ok(j) && j@ == sorted(report_tree(report@)),
            Ok(None) => r matches Ok(j) && j@ == sorted(
                report_tree(
                    ReportModel {
                        status: "missing"@,
                        added: Seq::empty(),
                        removed: Seq::empty(),
                        modified: Seq::empty(),
                        warnings: Seq::empty(),
                    },
                ),
            ),
            Err(e) => r matches Err(ActionError::Internal(s)) && s@ == e.context@,
        },
{
}

} // verus!
