//! The configuration: its records, their defaults, how they stand in TOML and
//! JSON, and how piped overrides are merged over them.

use crate::codec::{field, is_record, lists_are_arrays_of_texts, object2, read_field, read_list, read_texts, record_of, texts_in,
    texts_json, texts_read_back, texts_tree, Misfit};
use crate::json::{distinct_keys, lookup_distinct, member, members_of, merge_value, merged,
    merged_members_answer, parse_toml, put, put_answers, read_tree, toml_parsed, Json, JsonObject,
    JsonTree};
use crate::paths::{join_path, joined, Dir, DirModel};
use crate::ports::{port_specs, PortSpec, PortSpecModel};
use crate::text::{concat2, concat3, same_text, texts, trim, trimmed};
use crate::textmap::{has_key, lookup};
use vstd::prelude::*;

verus! {

/// Which files are watched.
#[derive(Debug, Clone)]
pub struct WatchConfig {
    pub paths: Vec<String>,
    pub exclude: Vec<String>,
}

/// Which processes may and may not run.
#[derive(Debug, Clone)]
pub struct ProcessConfig {
    pub blocklist: Vec<String>,
    pub allowlist: Vec<String>,
}

/// Which ports may listen.
#[derive(Debug, Clone)]
pub struct PortsConfig {
    pub allowed: Vec<PortSpec>,
    pub alert_unlisted: bool,
}

/// Where alerts are posted.
#[derive(Debug, Clone)]
pub struct AlertConfig {
    pub webhook_url: String,
}

/// The configuration of the sentinel.
#[derive(Debug, Clone)]
pub struct Config {
    pub watch: WatchConfig,
    pub process: ProcessConfig,
    pub ports: PortsConfig,
    pub alert: AlertConfig,
}

// ---------------------------------------------------------------------------
// Models
// ---------------------------------------------------------------------------

pub struct WatchModel {
    pub paths: Seq<Seq<char>>,
    pub exclude: Seq<Seq<char>>,
}

pub struct ProcessModel {
    pub blocklist: Seq<Seq<char>>,
    pub allowlist: Seq<Seq<char>>,
}

pub struct PortsModel {
    pub allowed: Seq<PortSpecModel>,
    pub alert_unlisted: bool,
}

pub struct AlertModel {
    pub webhook_url: Seq<char>,
}

pub struct ConfigModel {
    pub watch: WatchModel,
    pub process: ProcessModel,
    pub ports: PortsModel,
    pub alert: AlertModel,
}

impl View for WatchConfig {
    type V = WatchModel;

    open spec fn view(&self) -> WatchModel {
        WatchModel { paths: texts(self.paths@), exclude: texts(self.exclude@) }
    }
}

impl View for ProcessConfig {
    type V = ProcessModel;

    open spec fn view(&self) -> ProcessModel {
        ProcessModel { blocklist: texts(self.blocklist@), allowlist: texts(self.allowlist@) }
    }
}

impl View for PortsConfig {
    type V = PortsModel;

    open spec fn view(&self) -> PortsModel {
        PortsModel { allowed: port_specs(self.allowed@), alert_unlisted: self.alert_unlisted }
    }
}

impl View for AlertConfig {
    type V = AlertModel;

    open spec fn view(&self) -> AlertModel {
        AlertModel { webhook_url: self.webhook_url@ }
    }
}

impl View for Config {
    type V = ConfigModel;

    open spec fn view(&self) -> ConfigModel {
        ConfigModel {
            watch: self.watch@,
            process: self.process@,
            ports: self.ports@,
            alert: self.alert@,
        }
    }
}

// ---------------------------------------------------------------------------
// Defaults
// ---------------------------------------------------------------------------

pub open spec fn default_watch() -> WatchModel {
    WatchModel { paths: Seq::empty(), exclude: Seq::empty() }
}

pub open spec fn default_process() -> ProcessModel {
    ProcessModel { blocklist: Seq::empty(), allowlist: Seq::empty() }
}

/// The ports of the ecosystem are allowed, all others alert.
pub open spec fn default_ports() -> PortsModel {
    PortsModel {
        allowed: seq![
            PortSpecModel::Port(8751),
            PortSpecModel::Port(8752),
            PortSpecModel::Port(8753),
            PortSpecModel::Port(8754),
            PortSpecModel::Port(8755),
        ],
        alert_unlisted: true,
    }
}

pub open spec fn default_alert() -> AlertModel {
    AlertModel { webhook_url: Seq::empty() }
}

pub open spec fn default_config() -> ConfigModel {
    ConfigModel {
        watch: default_watch(),
        process: default_process(),
        ports: default_ports(),
        alert: default_alert(),
    }
}

pub fn default_true() -> (b: bool)
    ensures
        b,
{
    true
}

impl Default for WatchConfig {
    fn default() -> (r: Self)
        ensures
            r@ == default_watch(),
    {
        let r = WatchConfig { paths: Vec::new(), exclude: Vec::new() };
        assert(r@.paths =~= default_watch().paths);
        assert(r@.exclude =~= default_watch().exclude);
        r
    }
}

impl Default for ProcessConfig {
    fn default() -> (r: Self)
        ensures
            r@ == default_process(),
    {
        let r = ProcessConfig { blocklist: Vec::new(), allowlist: Vec::new() };
        assert(r@.blocklist =~= default_process().blocklist);
        assert(r@.allowlist =~= default_process().allowlist);
        r
    }
}

impl Default for PortsConfig {
    fn default() -> (r: Self)
        ensures
            r@ == default_ports(),
    {
        let mut allowed: Vec<PortSpec> = Vec::new();
        allowed.push(PortSpec::Port(8751));
        allowed.push(PortSpec::Port(8752));
        allowed.push(PortSpec::Port(8753));
        allowed.push(PortSpec::Port(8754));
        allowed.push(PortSpec::Port(8755));
        let r = PortsConfig { allowed, alert_unlisted: true };
        assert(r@.allowed =~= default_ports().allowed);
        r
    }
}

impl Default for AlertConfig {
    fn default() -> (r: Self)
        ensures
            r@ == default_alert(),
    {
        let r = AlertConfig { webhook_url: String::new() };
        assert(r@.webhook_url =~= default_alert().webhook_url);
        r
    }
}

impl Default for Config {
    fn default() -> (r: Self)
        ensures
            r@ == default_config(),
    {
        Config {
            watch: WatchConfig::default(),
            process: ProcessConfig::default(),
            ports: PortsConfig::default(),
            alert: AlertConfig::default(),
        }
    }
}

// ---------------------------------------------------------------------------
// Writing
// ---------------------------------------------------------------------------

/// A record of two fields as a document.
pub open spec fn pair_tree(a: Seq<char>, x: JsonTree, b: Seq<char>, y: JsonTree) -> JsonTree {
    JsonTree::Object(seq![(a, x), (b, y)])
}

pub open spec fn watch_tree(w: WatchModel) -> JsonTree {
    pair_tree("paths"@, texts_tree(w.paths), "exclude"@, texts_tree(w.exclude))
}

pub open spec fn process_tree(p: ProcessModel) -> JsonTree {
    pair_tree("blocklist"@, texts_tree(p.blocklist), "allowlist"@, texts_tree(p.allowlist))
}

/// An entry of the port allowlist as a document: a number or a text.
pub open spec fn port_spec_tree(s: PortSpecModel) -> JsonTree {
    match s {
        PortSpecModel::Port(p) => JsonTree::Int(p as int),
        PortSpecModel::Range(t) => JsonTree::Text(t),
    }
}

pub open spec fn port_specs_tree(list: Seq<PortSpecModel>) -> JsonTree {
    JsonTree::Array(list.map_values(|s: PortSpecModel| port_spec_tree(s)))
}

pub open spec fn ports_tree(p: PortsModel) -> JsonTree {
    pair_tree(
        "allowed"@,
        port_specs_tree(p.allowed),
        "alert_unlisted"@,
        JsonTree::Bool(p.alert_unlisted),
    )
}

pub open spec fn alert_tree(a: AlertModel) -> JsonTree {
    JsonTree::Object(seq![("webhook_url"@, JsonTree::Text(a.webhook_url))])
}

pub open spec fn config_tree(c: ConfigModel) -> JsonTree {
    JsonTree::Object(
        seq![
            ("watch"@, watch_tree(c.watch)),
            ("process"@, process_tree(c.process)),
            ("ports"@, ports_tree(c.ports)),
            ("alert"@, alert_tree(c.alert)),
        ],
    )
}

/// The names of fields and sections are different texts.
proof fn names_differ()
    ensures
        "paths"@ != "exclude"@,
        "blocklist"@ != "allowlist"@,
        "allowed"@ != "alert_unlisted"@,
        "watch"@ != "process"@,
        "watch"@ != "ports"@,
        "watch"@ != "alert"@,
        "process"@ != "ports"@,
        "process"@ != "alert"@,
        "ports"@ != "alert"@,
{
    reveal_strlit("paths");
    reveal_strlit("exclude");
    reveal_strlit("blocklist");
    reveal_strlit("allowlist");
    reveal_strlit("allowed");
    reveal_strlit("alert_unlisted");
    reveal_strlit("watch");
    reveal_strlit("process");
    reveal_strlit("ports");
    reveal_strlit("alert");
    assert("paths"@[0] != "exclude"@[0]);
    assert("allowed"@.len() != "alert_unlisted"@.len());
    assert("blocklist"@[0] != "allowlist"@[0]);
    assert("watch"@[0] != "process"@[0]);
    assert("process"@.len() != "ports"@.len());
    assert("process"@[0] != "alert"@[0]);
    assert("watch"@[0] != "ports"@[0]);
    assert("watch"@[0] != "alert"@[0]);
    assert("ports"@[0] != "alert"@[0]);
}

fn port_specs_json(list: &Vec<PortSpec>) -> (r: Json)
    ensures
        r@ == port_specs_tree(port_specs(list@)),
{
    let mut out: Vec<Json> = Vec::new();
    let mut i: usize = 0;
    while i < list.len()
        invariant
            i <= list@.len(),
            out@.len() == i,
            forall|k: int| 0 <= k < i ==> (#[trigger] out@[k])@ == port_spec_tree(list@[k]@),
        decreases list@.len() - i,
    {
        let j = match &list[i] {
            PortSpec::Port(p) => Json::Uint(*p as u64),
            PortSpec::Range(s) => Json::Text(s.clone()),
        };
        out.push(j);
        i = i + 1;
    }
    let r = Json::Array(out);
    assert(r@->Array_0 =~= port_specs_tree(port_specs(list@))->Array_0);
    r
}

impl Config {
    /// The configuration as a document.
    pub fn to_json(&self) -> (r: Json)
        ensures
            r@ == config_tree(self@),
    {
        proof {
            names_differ();
        }
        let watch = object2(
            "paths",
            texts_json(&self.watch.paths),
            "exclude",
            texts_json(&self.watch.exclude),
        );
        let process = object2(
            "blocklist",
            texts_json(&self.process.blocklist),
            "allowlist",
            texts_json(&self.process.allowlist),
        );
        let ports = object2(
            "allowed",
            port_specs_json(&self.ports.allowed),
            "alert_unlisted",
            Json::Bool(self.ports.alert_unlisted),
        );
        let alert = JsonObject::new().with(
            "webhook_url".to_string(),
            Json::Text(self.alert.webhook_url.clone()),
        );
        assert(alert@ =~= alert_tree(self.alert@)->Object_0);
        let o = JsonObject::new().with("watch".to_string(), watch);
        assert(o@ =~= seq![("watch"@, watch_tree(self.watch@))]);
        let o = o.with("process".to_string(), process);
        assert(o@ =~= seq![
            ("watch"@, watch_tree(self.watch@)),
            ("process"@, process_tree(self.process@)),
        ]);
        let o = o.with("ports".to_string(), ports);
        assert(o@ =~= seq![
            ("watch"@, watch_tree(self.watch@)),
            ("process"@, process_tree(self.process@)),
            ("ports"@, ports_tree(self.ports@)),
        ]);
        let o = o.with("alert".to_string(), Json::Object(alert));
        assert(o@ =~= config_tree(self@)->Object_0);
        Json::Object(o)
    }
}

// ---------------------------------------------------------------------------
// Reading
// ---------------------------------------------------------------------------

/// A list of texts that may be missing, and is then empty.
pub open spec fn optional_texts(v: Option<JsonTree>) -> Option<Seq<Seq<char>>> {
    match v {
        None => Some(Seq::empty()),
        Some(t) => texts_in(t),
    }
}

fn read_optional_texts(v: Option<&Json>) -> (r: Option<Vec<String>>)
    ensures
        v is None ==> read_list(r) == optional_texts(None),
        v matches Some(j) ==> read_list(r) == optional_texts(Some(j@)),
{
    match v {
        None => {
            let out: Vec<String> = Vec::new();
            assert(texts(out@) =~= Seq::<Seq<char>>::empty());
            Some(out)
        },
        Some(j) => read_texts(j),
    }
}

/// Reads `[watch]`; either list may be missing.
pub open spec fn watch_in(t: JsonTree) -> Result<WatchModel, Seq<char>> {
    if !record_of(t, 2) {
        Err("watch"@)
    } else {
        match optional_texts(field(t, "paths"@, 0)) {
            None => Err("watch.paths"@),
            Some(paths) => match optional_texts(field(t, "exclude"@, 1)) {
                None => Err("watch.exclude"@),
                Some(exclude) => Ok(WatchModel { paths, exclude }),
            },
        }
    }
}

/// Reads `[process]`; either list may be missing.
pub open spec fn process_in(t: JsonTree) -> Result<ProcessModel, Seq<char>> {
    if !record_of(t, 2) {
        Err("process"@)
    } else {
        match optional_texts(field(t, "blocklist"@, 0)) {
            None => Err("process.blocklist"@),
            Some(blocklist) => match optional_texts(field(t, "allowlist"@, 1)) {
                None => Err("process.allowlist"@),
                Some(allowlist) => Ok(ProcessModel { blocklist, allowlist }),
            },
        }
    }
}

/// An entry of the port allowlist: an integer that is a port, or any text.
pub open spec fn port_spec_in(t: JsonTree) -> Option<PortSpecModel> {
    match t {
        JsonTree::Int(n) => if 0 <= n <= u16::MAX {
            Some(PortSpecModel::Port(n as u16))
        } else {
            None
        },
        JsonTree::Text(s) => Some(PortSpecModel::Range(s)),
        _ => None,
    }
}

/// The port allowlist that a document is, if it is one.
pub open spec fn port_specs_in(t: JsonTree) -> Option<Seq<PortSpecModel>> {
    match t {
        JsonTree::Array(s) => if forall|i: int|
            0 <= i < s.len() ==> port_spec_in(#[trigger] s[i]) is Some {
            Some(s.map_values(|e: JsonTree| port_spec_in(e)->0))
        } else {
            None
        },
        _ => None,
    }
}

pub open spec fn optional_port_specs(v: Option<JsonTree>) -> Option<Seq<PortSpecModel>> {
    match v {
        None => Some(Seq::empty()),
        Some(t) => port_specs_in(t),
    }
}

/// A truth value that may be missing, and then stands.
pub open spec fn optional_true(v: Option<JsonTree>) -> Option<bool> {
    match v {
        None => Some(true),
        Some(JsonTree::Bool(b)) => Some(b),
        _ => None,
    }
}

/// Reads `[ports]`: a missing allowlist is empty, a missing `alert_unlisted` true.
pub open spec fn ports_in(t: JsonTree) -> Result<PortsModel, Seq<char>> {
    if !record_of(t, 2) {
        Err("ports"@)
    } else {
        match optional_port_specs(field(t, "allowed"@, 0)) {
            None => Err("ports.allowed"@),
            Some(allowed) => match optional_true(field(t, "alert_unlisted"@, 1)) {
                None => Err("ports.alert_unlisted"@),
                Some(alert_unlisted) => Ok(PortsModel { allowed, alert_unlisted }),
            },
        }
    }
}

/// Reads `[alert]`; a missing URL is empty.
pub open spec fn alert_in(t: JsonTree) -> Result<AlertModel, Seq<char>> {
    if !record_of(t, 1) {
        Err("alert"@)
    } else {
        match field(t, "webhook_url"@, 0) {
            None => Ok(default_alert()),
            Some(JsonTree::Text(s)) => Ok(AlertModel { webhook_url: s }),
            Some(_) => Err("alert.webhook_url"@),
        }
    }
}

/// A section that may be missing, and then has its defaults.
pub open spec fn section_in<M>(
    v: Option<JsonTree>,
    missing: M,
    read: spec_fn(JsonTree) -> Result<M, Seq<char>>,
) -> Result<M, Seq<char>> {
    match v {
        None => Ok(missing),
        Some(t) => read(t),
    }
}

/// Reads a configuration. A missing section has its defaults; unknown keys are
/// passed over.
pub open spec fn config_in(t: JsonTree) -> Result<ConfigModel, Seq<char>> {
    if !record_of(t, 4) {
        Err("configuration"@)
    } else {
        match section_in(
            field(t, "watch"@, 0),
            default_watch(),
            |v: JsonTree| watch_in(v),
        ) {
            Err(e) => Err(e),
            Ok(watch) => match section_in(
                field(t, "process"@, 1),
                default_process(),
                |v: JsonTree| process_in(v),
            ) {
                Err(e) => Err(e),
                Ok(process) => match section_in(
                    field(t, "ports"@, 2),
                    default_ports(),
                    |v: JsonTree| ports_in(v),
                ) {
                    Err(e) => Err(e),
                    Ok(ports) => match section_in(
                        field(t, "alert"@, 3),
                        default_alert(),
                        |v: JsonTree| alert_in(v),
                    ) {
                        Err(e) => Err(e),
                        Ok(alert) => Ok(ConfigModel { watch, process, ports, alert }),
                    },
                },
            },
        }
    }
}

/// What came of reading a record.
pub open spec fn outcome<T: View>(r: Result<T, Misfit>) -> Result<T::V, Seq<char>> {
    match r {
        Ok(v) => Ok(v@),
        Err(e) => Err(e@),
    }
}

fn read_watch(j: &Json) -> (r: Result<WatchConfig, Misfit>)
    ensures
        outcome(r) == watch_in(j@),
{
    if !is_record(j, 2) {
        return Err(Misfit::new("watch"));
    }
    match read_optional_texts(read_field(j, "paths", 0)) {
        None => Err(Misfit::new("watch.paths")),
        Some(paths) => match read_optional_texts(read_field(j, "exclude", 1)) {
            None => Err(Misfit::new("watch.exclude")),
            Some(exclude) => Ok(WatchConfig { paths, exclude }),
        },
    }
}

fn read_process(j: &Json) -> (r: Result<ProcessConfig, Misfit>)
    ensures
        outcome(r) == process_in(j@),
{
    if !is_record(j, 2) {
        return Err(Misfit::new("process"));
    }
    match read_optional_texts(read_field(j, "blocklist", 0)) {
        None => Err(Misfit::new("process.blocklist")),
        Some(blocklist) => match read_optional_texts(read_field(j, "allowlist", 1)) {
            None => Err(Misfit::new("process.allowlist")),
            Some(allowlist) => Ok(ProcessConfig { blocklist, allowlist }),
        },
    }
}

fn read_port_spec(j: &Json) -> (r: Option<PortSpec>)
    ensures
        r is Some == port_spec_in(j@) is Some,
        r matches Some(s) ==> port_spec_in(j@) == Some(s@),
{
    match j {
        Json::Uint(u) => if *u <= 65535 {
            Some(PortSpec::Port(*u as u16))
        } else {
            None
        },
        Json::Int(i) => if 0 <= *i && *i <= 65535 {
            Some(PortSpec::Port(*i as u16))
        } else {
            None
        },
        Json::Text(s) => Some(PortSpec::Range(s.clone())),
        Json::Real(x) => {
            x.is_number();
            None
        },
        _ => None,
    }
}

/// What came of reading a port allowlist.
pub open spec fn read_allowlist(r: Option<Vec<PortSpec>>) -> Option<Seq<PortSpecModel>> {
    match r {
        Some(list) => Some(port_specs(list@)),
        None => None,
    }
}

fn read_port_list(j: &Json) -> (r: Option<Vec<PortSpec>>)
    ensures
        read_allowlist(r) == port_specs_in(j@),
{
    match j {
        Json::Array(items) => {
            let ghost s = j@->Array_0;
            let mut out: Vec<PortSpec> = Vec::new();
            let mut i: usize = 0;
            while i < items.len()
                invariant
                    i <= items@.len(),
                    s == j@->Array_0,
                    *j == Json::Array(*items),
                    out@.len() == i,
                    forall|k: int| 0 <= k < i ==> port_spec_in(#[trigger] s[k]) == Some(out@[k]@),
                decreases items@.len() - i,
            {
                assert(s[i as int] == items@[i as int]@);
                match read_port_spec(&items[i]) {
                    Some(spec) => {
                        out.push(spec);
                    },
                    None => {
                        return None;
                    },
                }
                i = i + 1;
            }
            assert(port_specs(out@) =~= s.map_values(|e: JsonTree| port_spec_in(e)->0));
            Some(out)
        },
        Json::Real(x) => {
            x.is_number();
            None
        },
        _ => None,
    }
}

fn read_port_specs(v: Option<&Json>) -> (r: Option<Vec<PortSpec>>)
    ensures
        v is None ==> read_allowlist(r) == optional_port_specs(None),
        v matches Some(j) ==> read_allowlist(r) == optional_port_specs(Some(j@)),
{
    match v {
        None => {
            let out: Vec<PortSpec> = Vec::new();
            assert(port_specs(out@) =~= Seq::<PortSpecModel>::empty());
            Some(out)
        },
        Some(j) => read_port_list(j),
    }
}

fn read_optional_true(v: Option<&Json>) -> (r: Option<bool>)
    ensures
        v is None ==> r == optional_true(None),
        v matches Some(j) ==> r == optional_true(Some(j@)),
{
    match v {
        None => Some(default_true()),
        Some(Json::Bool(b)) => Some(*b),
        Some(Json::Real(x)) => {
            x.is_number();
            None
        },
        _ => None,
    }
}

fn read_ports(j: &Json) -> (r: Result<PortsConfig, Misfit>)
    ensures
        outcome(r) == ports_in(j@),
{
    if !is_record(j, 2) {
        return Err(Misfit::new("ports"));
    }
    match read_port_specs(read_field(j, "allowed", 0)) {
        None => Err(Misfit::new("ports.allowed")),
        Some(allowed) => match read_optional_true(read_field(j, "alert_unlisted", 1)) {
            None => Err(Misfit::new("ports.alert_unlisted")),
            Some(alert_unlisted) => Ok(PortsConfig { allowed, alert_unlisted }),
        },
    }
}

fn read_alert(j: &Json) -> (r: Result<AlertConfig, Misfit>)
    ensures
        outcome(r) == alert_in(j@),
{
    if !is_record(j, 1) {
        return Err(Misfit::new("alert"));
    }
    match read_field(j, "webhook_url", 0) {
        None => Ok(AlertConfig::default()),
        Some(v) => match v.as_str() {
            Some(s) => Ok(AlertConfig { webhook_url: s.to_string() }),
            None => Err(Misfit::new("alert.webhook_url")),
        },
    }
}

impl Config {
    /// Reads a configuration from a document.
    pub fn from_json(j: &Json) -> (r: Result<Config, Misfit>)
        ensures
            outcome(r) == config_in(j@),
    {
        if !is_record(j, 4) {
            return Err(Misfit::new("configuration"));
        }
        let watch = match read_field(j, "watch", 0) {
            None => WatchConfig::default(),
            Some(v) => match read_watch(v) {
                Ok(w) => w,
                Err(e) => return Err(e),
            },
        };
        let process = match read_field(j, "process", 1) {
            None => ProcessConfig::default(),
            Some(v) => match read_process(v) {
                Ok(p) => p,
                Err(e) => return Err(e),
            },
        };
        let ports = match read_field(j, "ports", 2) {
            None => PortsConfig::default(),
            Some(v) => match read_ports(v) {
                Ok(p) => p,
                Err(e) => return Err(e),
            },
        };
        let alert = match read_field(j, "alert", 3) {
            None => AlertConfig::default(),
            Some(v) => match read_alert(v) {
                Ok(a) => a,
                Err(e) => return Err(e),
            },
        };
        Ok(Config { watch, process, ports, alert })
    }
}

// ---------------------------------------------------------------------------
// Overrides
// ---------------------------------------------------------------------------

/// Members with one more, if the document has the key.
pub open spec fn with_section(
    s: Seq<(Seq<char>, JsonTree)>,
    t: JsonTree,
    key: Seq<char>,
) -> Seq<(Seq<char>, JsonTree)> {
    match member(t, key) {
        Some(v) => s.push((key, v)),
        None => s,
    }
}

/// The sections of a configuration that a document overrides.
pub open spec fn override_sections(t: JsonTree) -> Seq<(Seq<char>, JsonTree)> {
    let s = with_section(Seq::empty(), t, "watch"@);
    let s = with_section(s, t, "process"@);
    let s = with_section(s, t, "ports"@);
    with_section(s, t, "alert"@)
}

/// A configuration with the sections of a document merged over it.
pub open spec fn overridden(c: ConfigModel, t: JsonTree) -> Result<ConfigModel, Seq<char>> {
    config_in(merged(config_tree(c), JsonTree::Object(override_sections(t))))
}

fn add_section(o: JsonObject, t: &Json, key: &str) -> (r: JsonObject)
    requires
        !has_key(o@, key@),
    ensures
        r@ == with_section(o@, t@, key@),
{
    match t.get(key) {
        Some(v) => o.with(key.to_string(), v.copy()),
        None => o,
    }
}

/// Deep-merge the `watch` / `process` / `ports` / `alert` sections of the stdin
/// JSON object over the configuration (stdin wins).
pub fn apply_config_overrides(cfg: &Config, stdin: &Json) -> (r: Result<Config, Misfit>)
    ensures
        outcome(r) == overridden(cfg@, stdin@),
{
    proof {
        names_differ();
    }
    let tree = cfg.to_json();
    let o = add_section(JsonObject::new(), stdin, "watch");
    let o = add_section(o, stdin, "process");
    let o = add_section(o, stdin, "ports");
    let o = add_section(o, stdin, "alert");
    Config::from_json(&merge_value(&tree, &Json::Object(o)))
}

// ---------------------------------------------------------------------------
// The effective configuration
// ---------------------------------------------------------------------------

/// Why there is no configuration.
#[derive(Debug, Clone, PartialEq, Eq)]
pub enum ConfigError {
    /// The file that was asked for is not there.
    NotFound(String),
    /// The file is no TOML, or not of the shape of a configuration.
    Parse(String, String),
    /// The piped overrides do not have the shape of a configuration.
    Override(String),
}

/// What a configuration error says.
pub enum ConfigFault {
    NotFound(Seq<char>),
    Parse(Seq<char>, Seq<char>),
    Override(Seq<char>),
}

impl View for ConfigError {
    type V = ConfigFault;

    open spec fn view(&self) -> ConfigFault {
        match *self {
            ConfigError::NotFound(p) => ConfigFault::NotFound(p@),
            ConfigError::Parse(p, e) => ConfigFault::Parse(p@, e@),
            ConfigError::Override(e) => ConfigFault::Override(e@),
        }
    }
}

/// The message of a configuration error.
pub open spec fn config_fault_text(f: ConfigFault) -> Seq<char> {
    match f {
        ConfigFault::NotFound(p) => "config file not found: "@ + p,
        ConfigFault::Parse(p, e) => "failed to parse config file "@ + p + ": "@ + e,
        ConfigFault::Override(e) => "failed to apply stdin config overrides: "@ + e,
    }
}

impl ConfigError {
    pub fn message(&self) -> (r: String)
        ensures
            r@ == config_fault_text(self@),
    {
        match self {
            ConfigError::NotFound(p) => concat2("config file not found: ", p.as_str()),
            ConfigError::Parse(p, e) => concat2(
                concat3("failed to parse config file ", p.as_str(), ": ").as_str(),
                e.as_str(),
            ),
            ConfigError::Override(e) => concat2(
                "failed to apply stdin config overrides: ",
                e.as_str(),
            ),
        }
    }
}

/// The message for a document of the wrong shape.
pub open spec fn misfit_text(at: Seq<char>) -> Seq<char> {
    "unexpected value at "@ + at
}

/// The warning for a configuration file that is not there.
pub open spec fn no_config_warning(path: Seq<char>) -> Seq<char> {
    "warning: no config file at "@ + path + "; using defaults"@
}

/// How many fields a section has.
pub open spec fn section_width(key: Seq<char>) -> Option<int> {
    if key == "watch"@ || key == "process"@ || key == "ports"@ {
        Some(2)
    } else if key == "alert"@ {
        Some(1)
    } else {
        None
    }
}

/// A section without the items that have no field, where it is a list of values in
/// the order of its fields.
pub open spec fn cut_section(key: Seq<char>, t: JsonTree) -> JsonTree {
    match (section_width(key), t) {
        (Some(n), JsonTree::Array(s)) => if s.len() > n {
            JsonTree::Array(s.take(n))
        } else {
            t
        },
        _ => t,
    }
}

/// A document without the items of its sections that have no field. A TOML file may
/// hold such items; they are passed over.
pub open spec fn without_surplus(t: JsonTree) -> JsonTree {
    match t {
        JsonTree::Object(s) => JsonTree::Object(
            s.map_values(|e: (Seq<char>, JsonTree)| (e.0, cut_section(e.0, e.1))),
        ),
        _ => t,
    }
}

fn cut_items(key: &str, j: &Json) -> (r: Json)
    ensures
        r@ == cut_section(key@, j@),
{
    let width: usize = if same_text(key, "watch") || same_text(key, "process") || same_text(
        key,
        "ports",
    ) {
        2
    } else if same_text(key, "alert") {
        1
    } else {
        return j.copy();
    };
    match j {
        Json::Array(items) => {
            if items.len() <= width {
                return j.copy();
            }
            let mut out: Vec<Json> = Vec::new();
            let mut i: usize = 0;
            while i < width
                invariant
                    i <= width < items@.len(),
                    out@.len() == i,
                    forall|k: int| 0 <= k < i ==> (#[trigger] out@[k])@ == items@[k]@,
                decreases width - i,
            {
                out.push(items[i].copy());
                i = i + 1;
            }
            let r = Json::Array(out);
            assert(r@->Array_0 =~= j@->Array_0.take(width as int));
            r
        },
        Json::Real(x) => {
            x.is_number();
            j.copy()
        },
        _ => j.copy(),
    }
}

fn cut_surplus(j: &Json) -> (r: Json)
    ensures
        r@ == without_surplus(j@),
{
    match j {
        Json::Object(o) => {
            let n: usize = o.len();
            let ghost all = without_surplus(j@)->Object_0;
            let mut out: Vec<(String, Json)> = Vec::new();
            let mut i: usize = 0;
            while i < n
                invariant
                    i <= n == o@.len() == all.len(),
                    all == o@.map_values(
                        |e: (Seq<char>, JsonTree)| (e.0, cut_section(e.0, e.1)),
                    ),
                    out@.len() == i,
                    forall|k: int| 0 <= k < i ==> members_of(out@)[k] == #[trigger] all[k],
                decreases n - i,
            {
                let (key, value) = o.entry(i);
                let ghost was = out@;
                out.push((key.clone(), cut_items(key.as_str(), value)));
                assert forall|k: int| 0 <= k < i + 1 implies members_of(out@)[k]
                    == #[trigger] all[k] by {
                    if k < i {
                        assert(members_of(was)[k] == all[k]);
                    }
                }
                i = i + 1;
            }
            assert(members_of(out@) =~= all);
            assert forall|x: int, y: int| 0 <= x < y < all.len() implies #[trigger] all[x].0
                != #[trigger] all[y].0 by {
                assert(o@[x].0 != o@[y].0);
            }
            Json::Object(JsonObject::of(out))
        },
        Json::Real(x) => {
            x.is_number();
            j.copy()
        },
        _ => j.copy(),
    }
}

/// The configuration before overrides, with the warnings to print: what the file
/// says, or the defaults where no file was asked for and none is there.
pub open spec fn base_config(
    explicit: bool,
    path: Seq<char>,
    file: Option<Result<JsonTree, Seq<char>>>,
) -> Result<(ConfigModel, Seq<Seq<char>>), ConfigFault> {
    match file {
        Some(Err(e)) => Err(ConfigFault::Parse(path, e)),
        Some(Ok(t)) => match config_in(without_surplus(t)) {
            Ok(c) => Ok((c, Seq::empty())),
            Err(at) => Err(ConfigFault::Parse(path, misfit_text(at))),
        },
        None => if explicit {
            Err(ConfigFault::NotFound(path))
        } else {
            Ok((default_config(), seq![no_config_warning(path)]))
        },
    }
}

/// The effective configuration: the base with the piped document merged over it.
pub open spec fn effective(
    explicit: bool,
    path: Seq<char>,
    file: Option<Result<JsonTree, Seq<char>>>,
    stdin: Option<JsonTree>,
) -> Result<(ConfigModel, Seq<Seq<char>>), ConfigFault> {
    match base_config(explicit, path, file) {
        Err(f) => Err(f),
        Ok((c, warnings)) => match stdin {
            None => Ok((c, warnings)),
            Some(t) => match overridden(c, t) {
                Ok(d) => Ok((d, warnings)),
                Err(at) => Err(ConfigFault::Override(misfit_text(at))),
            },
        },
    }
}

/// What came of settling a configuration.
pub open spec fn settled(r: Result<(Config, Vec<String>), ConfigError>) -> Result<
    (ConfigModel, Seq<Seq<char>>),
    ConfigFault,
> {
    match r {
        Ok((c, w)) => Ok((c@, texts(w@))),
        Err(e) => Err(e@),
    }
}

/// What a document that may be missing says.
pub open spec fn optional_tree(j: Option<&Json>) -> Option<JsonTree> {
    match j {
        Some(v) => Some(v@),
        None => None,
    }
}

/// What came of reading a document that may be missing.
pub open spec fn optional_read(r: Option<Result<Json, String>>) -> Option<
    Result<JsonTree, Seq<char>>,
> {
    match r {
        Some(x) => Some(read_tree(x)),
        None => None,
    }
}

/// Settles the configuration, given what came of reading the file at `path`:
/// nothing where there is no file.
pub fn settle_config(
    explicit: bool,
    path: &str,
    file: Option<Result<Json, String>>,
    stdin: Option<&Json>,
) -> (r: Result<(Config, Vec<String>), ConfigError>)
    ensures
        settled(r) == effective(explicit, path@, optional_read(file), optional_tree(stdin)),
{
    let mut warnings: Vec<String> = Vec::new();
    assert(texts(warnings@) =~= Seq::<Seq<char>>::empty());
    let cfg = match file {
        Some(Err(e)) => return Err(ConfigError::Parse(path.to_string(), e)),
        Some(Ok(tree)) => match Config::from_json(&cut_surplus(&tree)) {
            Ok(c) => c,
            Err(e) => return Err(ConfigError::Parse(path.to_string(), e.message())),
        },
        None => {
            if explicit {
                return Err(ConfigError::NotFound(path.to_string()));
            }
            let line = concat3("warning: no config file at ", path, "; using defaults");
            warnings.push(line);
            assert(texts(warnings@) =~= seq![no_config_warning(path@)]);
            Config::default()
        },
    };
    match stdin {
        None => Ok((cfg, warnings)),
        Some(v) => match apply_config_overrides(&cfg, v) {
            Ok(c) => Ok((c, warnings)),
            Err(e) => Err(ConfigError::Override(e.message())),
        },
    }
}

/// What the text of a file that may be missing says as TOML.
pub open spec fn toml_file(text: Option<&str>) -> Option<Result<JsonTree, Seq<char>>> {
    match text {
        Some(s) => Some(toml_parsed(s@)),
        None => None,
    }
}

/// Load the effective config from the text of the config file (required when it
/// was asked for, defaults with a warning when absent), then merge the piped-stdin
/// JSON object over it (stdin wins).
pub fn load_effective(
    explicit: bool,
    path: &str,
    text: Option<&str>,
    stdin: Option<&Json>,
) -> (r: Result<(Config, Vec<String>), ConfigError>)
    ensures
        settled(r) == effective(explicit, path@, toml_file(text), optional_tree(stdin)),
{
    let file = match text {
        Some(s) => Some(parse_toml(s)),
        None => None,
    };
    settle_config(explicit, path, file, stdin)
}

// ---------------------------------------------------------------------------
// Places
// ---------------------------------------------------------------------------

/// The data directory: the override where it is not blank, else `.adonword` in the
/// home directory, or in the working directory where there is no home.
pub open spec fn data_dir_path(
    from_env: Option<Seq<char>>,
    home: Option<Seq<char>>,
    separator: char,
) -> DirModel {
    match from_env {
        Some(dir) if trimmed(dir).len() > 0 => DirModel { path: dir, separator },
        _ => {
            let base = match home {
                Some(h) => h,
                None => "."@,
            };
            DirModel {
                path: joined(DirModel { path: base, separator }, ".adonword"@),
                separator,
            }
        },
    }
}

/// What a text that may be missing says.
pub open spec fn optional_text(s: Option<&str>) -> Option<Seq<char>> {
    match s {
        Some(t) => Some(t@),
        None => None,
    }
}

/// Resolve the data directory from the `ADONWORD_DATA_DIR` override, the home
/// directory and the separator of the platform.
pub fn data_dir(from_env: Option<&str>, home: Option<&str>, separator: char) -> (r: Dir)
    ensures
        r@ == data_dir_path(optional_text(from_env), optional_text(home), separator),
{
    if let Some(dir) = from_env {
        if !trim(dir).as_str().is_empty() {
            return Dir::new(dir, separator);
        }
    }
    let base = match home {
        Some(h) => h,
        None => ".",
    };
    Dir { path: join_path(&Dir::new(base, separator), ".adonword"), separator }
}

/// The path of the config file: the one that was asked for, else `adonword.toml`
/// in the data directory.
pub open spec fn config_file(explicit: Option<Seq<char>>, dir: DirModel) -> Seq<char> {
    match explicit {
        Some(p) => p,
        None => joined(dir, "adonword.toml"@),
    }
}

pub fn config_path(explicit: Option<&str>, dir: &Dir) -> (r: String)
    ensures
        r@ == config_file(optional_text(explicit), dir@),
{
    match explicit {
        Some(p) => p.to_string(),
        None => join_path(dir, "adonword.toml"),
    }
}

// ---------------------------------------------------------------------------
// Laws
// ---------------------------------------------------------------------------

/// The fields of a record of two are found under their names.
proof fn pair_fields(a: Seq<char>, x: JsonTree, b: Seq<char>, y: JsonTree)
    requires
        a != b,
    ensures
        distinct_keys(pair_tree(a, x, b, y)->Object_0),
        lookup(pair_tree(a, x, b, y)->Object_0, a) == Some(x),
        lookup(pair_tree(a, x, b, y)->Object_0, b) == Some(y),
        has_key(pair_tree(a, x, b, y)->Object_0, a),
        has_key(pair_tree(a, x, b, y)->Object_0, b),
{
    let s = pair_tree(a, x, b, y)->Object_0;
    assert(s[0].0 == a && s[1].0 == b);
    lookup_distinct(s, 0);
    lookup_distinct(s, 1);
}

proof fn port_specs_read_back(list: Seq<PortSpecModel>)
    ensures
        port_specs_in(port_specs_tree(list)) == Some(list),
{
    let s = port_specs_tree(list)->Array_0;
    assert forall|i: int| 0 <= i < s.len() implies port_spec_in(#[trigger] s[i]) == Some(
        list[i],
    ) by {}
    assert(s.map_values(|e: JsonTree| port_spec_in(e)->0) =~= list);
}

/// Each section survives being written and read.
proof fn sections_read_back(c: ConfigModel)
    ensures
        watch_in(watch_tree(c.watch)) == Ok::<WatchModel, Seq<char>>(c.watch),
        process_in(process_tree(c.process)) == Ok::<ProcessModel, Seq<char>>(c.process),
        ports_in(ports_tree(c.ports)) == Ok::<PortsModel, Seq<char>>(c.ports),
        alert_in(alert_tree(c.alert)) == Ok::<AlertModel, Seq<char>>(c.alert),
{
    names_differ();
    pair_fields("paths"@, texts_tree(c.watch.paths), "exclude"@, texts_tree(c.watch.exclude));
    texts_read_back(c.watch.paths);
    texts_read_back(c.watch.exclude);
    pair_fields(
        "blocklist"@,
        texts_tree(c.process.blocklist),
        "allowlist"@,
        texts_tree(c.process.allowlist),
    );
    texts_read_back(c.process.blocklist);
    texts_read_back(c.process.allowlist);
    pair_fields(
        "allowed"@,
        port_specs_tree(c.ports.allowed),
        "alert_unlisted"@,
        JsonTree::Bool(c.ports.alert_unlisted),
    );
    port_specs_read_back(c.ports.allowed);
    let s = alert_tree(c.alert)->Object_0;
    assert(s[0].0 == "webhook_url"@);
    lookup_distinct(s, 0);
}

/// The sections of a written configuration are found under their names.
proof fn config_sections(c: ConfigModel)
    ensures
        ({
            let s = config_tree(c)->Object_0;
            &&& distinct_keys(s)
            &&& has_key(s, "watch"@) && lookup(s, "watch"@) == Some(watch_tree(c.watch))
            &&& has_key(s, "process"@) && lookup(s, "process"@) == Some(process_tree(c.process))
            &&& has_key(s, "ports"@) && lookup(s, "ports"@) == Some(ports_tree(c.ports))
            &&& has_key(s, "alert"@) && lookup(s, "alert"@) == Some(alert_tree(c.alert))
        }),
{
    names_differ();
    let s = config_tree(c)->Object_0;
    assert(s[0].0 == "watch"@ && s[1].0 == "process"@ && s[2].0 == "ports"@ && s[3].0
        == "alert"@);
    lookup_distinct(s, 0);
    lookup_distinct(s, 1);
    lookup_distinct(s, 2);
    lookup_distinct(s, 3);
}

/// A configuration survives being written and read.
pub proof fn config_reads_back(c: ConfigModel)
    ensures
        config_in(config_tree(c)) == Ok::<ConfigModel, Seq<char>>(c),
{
    config_sections(c);
    sections_read_back(c);
}

/// The overriding sections are the sections of the document.
proof fn override_sections_are_members(t: JsonTree)
    ensures
        ({
            let s = override_sections(t);
            &&& distinct_keys(s)
            &&& lookup(s, "watch"@) == member(t, "watch"@)
            &&& lookup(s, "process"@) == member(t, "process"@)
            &&& lookup(s, "ports"@) == member(t, "ports"@)
            &&& lookup(s, "alert"@) == member(t, "alert"@)
        }),
{
    names_differ();
    let none = Seq::<(Seq<char>, JsonTree)>::empty();
    let s1 = with_section(none, t, "watch"@);
    let s2 = with_section(s1, t, "process"@);
    let s3 = with_section(s2, t, "ports"@);
    section_added(none, t, "watch"@);
    section_added(s1, t, "process"@);
    section_added(s2, t, "ports"@);
    section_added(s3, t, "alert"@);
}

proof fn section_added(s: Seq<(Seq<char>, JsonTree)>, t: JsonTree, key: Seq<char>)
    requires
        distinct_keys(s),
        !has_key(s, key),
    ensures
        distinct_keys(with_section(s, t, key)),
        lookup(with_section(s, t, key), key) == member(t, key),
        forall|k: Seq<char>|
            k != key ==> #[trigger] lookup(with_section(s, t, key), k) == lookup(s, k),
        forall|k: Seq<char>|
            k != key ==> #[trigger] has_key(with_section(s, t, key), k) == has_key(s, k),
{
    if let Some(v) = member(t, key) {
        put_answers(s, key, v);
        assert(put(s, key, v) == with_section(s, t, key));
        assert forall|k: Seq<char>| k != key implies #[trigger] has_key(
            with_section(s, t, key),
            k,
        ) == has_key(s, k) by {
            assert(lookup(with_section(s, t, key), k) == lookup(s, k));
        }
    }
}

/// Without an overriding section the configuration stays as it is.
pub proof fn no_section_no_change(c: ConfigModel, t: JsonTree)
    requires
        member(t, "watch"@) is None,
        member(t, "process"@) is None,
        member(t, "ports"@) is None,
        member(t, "alert"@) is None,
    ensures
        overridden(c, t) == Ok::<ConfigModel, Seq<char>>(c),
{
    assert(override_sections(t) =~= Seq::<(Seq<char>, JsonTree)>::empty());
    config_reads_back(c);
}

/// A list with an override: kept where there is none.
pub open spec fn patched_texts(old: Seq<Seq<char>>, v: Option<JsonTree>) -> Option<
    Seq<Seq<char>>,
> {
    match v {
        None => Some(old),
        Some(t) => texts_in(t),
    }
}

/// `[watch]` with an override: field by field where the override is an object.
pub open spec fn patched_watch(w: WatchModel, v: Option<JsonTree>) -> Result<
    WatchModel,
    Seq<char>,
> {
    match v {
        None => Ok(w),
        Some(JsonTree::Object(p)) => match patched_texts(w.paths, lookup(p, "paths"@)) {
            None => Err("watch.paths"@),
            Some(paths) => match patched_texts(w.exclude, lookup(p, "exclude"@)) {
                None => Err("watch.exclude"@),
                Some(exclude) => Ok(WatchModel { paths, exclude }),
            },
        },
        Some(t) => watch_in(t),
    }
}

/// `[process]` with an override.
pub open spec fn patched_process(m: ProcessModel, v: Option<JsonTree>) -> Result<
    ProcessModel,
    Seq<char>,
> {
    match v {
        None => Ok(m),
        Some(JsonTree::Object(p)) => match patched_texts(m.blocklist, lookup(p, "blocklist"@)) {
            None => Err("process.blocklist"@),
            Some(blocklist) => match patched_texts(m.allowlist, lookup(p, "allowlist"@)) {
                None => Err("process.allowlist"@),
                Some(allowlist) => Ok(ProcessModel { blocklist, allowlist }),
            },
        },
        Some(t) => process_in(t),
    }
}

/// `[ports]` with an override.
pub open spec fn patched_ports(m: PortsModel, v: Option<JsonTree>) -> Result<
    PortsModel,
    Seq<char>,
> {
    match v {
        None => Ok(m),
        Some(JsonTree::Object(p)) => match (match lookup(p, "allowed"@) {
            None => Some(m.allowed),
            Some(t) => port_specs_in(t),
        }) {
            None => Err("ports.allowed"@),
            Some(allowed) => match lookup(p, "alert_unlisted"@) {
                None => Ok(PortsModel { allowed, alert_unlisted: m.alert_unlisted }),
                Some(JsonTree::Bool(b)) => Ok(PortsModel { allowed, alert_unlisted: b }),
                Some(_) => Err("ports.alert_unlisted"@),
            },
        },
        Some(t) => ports_in(t),
    }
}

/// `[alert]` with an override.
pub open spec fn patched_alert(m: AlertModel, v: Option<JsonTree>) -> Result<
    AlertModel,
    Seq<char>,
> {
    match v {
        None => Ok(m),
        Some(JsonTree::Object(p)) => match lookup(p, "webhook_url"@) {
            None => Ok(m),
            Some(JsonTree::Text(s)) => Ok(AlertModel { webhook_url: s }),
            Some(_) => Err("alert.webhook_url"@),
        },
        Some(t) => alert_in(t),
    }
}

/// A configuration with overrides, section by section.
pub open spec fn patched_config(c: ConfigModel, t: JsonTree) -> Result<ConfigModel, Seq<char>> {
    match patched_watch(c.watch, member(t, "watch"@)) {
        Err(e) => Err(e),
        Ok(watch) => match patched_process(c.process, member(t, "process"@)) {
            Err(e) => Err(e),
            Ok(process) => match patched_ports(c.ports, member(t, "ports"@)) {
                Err(e) => Err(e),
                Ok(ports) => match patched_alert(c.alert, member(t, "alert"@)) {
                    Err(e) => Err(e),
                    Ok(alert) => Ok(ConfigModel { watch, process, ports, alert }),
                },
            },
        },
    }
}

/// Whether a section, if it is an object, holds no key twice.
pub open spec fn section_once(t: JsonTree, key: Seq<char>) -> bool {
    match member(t, key) {
        Some(JsonTree::Object(p)) => distinct_keys(p),
        _ => true,
    }
}

/// What a record of two fields answers with a patch over it, where its fields are
/// no objects.
proof fn pair_patched(
    a: Seq<char>,
    x: JsonTree,
    b: Seq<char>,
    y: JsonTree,
    p: Seq<(Seq<char>, JsonTree)>,
)
    requires
        a != b,
        x !is Object,
        y !is Object,
        distinct_keys(p),
    ensures
        ({
            let m = merged(pair_tree(a, x, b, y), JsonTree::Object(p));
            &&& m is Object
            &&& lookup(m->Object_0, a) == (match lookup(p, a) {
                Some(v) => Some(v),
                None => Some(x),
            })
            &&& lookup(m->Object_0, b) == (match lookup(p, b) {
                Some(v) => Some(v),
                None => Some(y),
            })
        }),
{
    pair_fields(a, x, b, y);
    let t = pair_tree(a, x, b, y)->Object_0;
    merged_members_answer(t, p, a);
    merged_members_answer(t, p, b);
}

/// A section with an override over it.
pub open spec fn merged_section(section: JsonTree, v: Option<JsonTree>) -> JsonTree {
    match v {
        Some(t) => merged(section, t),
        None => section,
    }
}

proof fn watch_patched(c: ConfigModel, v: Option<JsonTree>)
    requires
        v matches Some(JsonTree::Object(p)) ==> distinct_keys(p),
    ensures
        watch_in(merged_section(watch_tree(c.watch), v)) == patched_watch(c.watch, v),
{
    names_differ();
    sections_read_back(c);
    if let Some(JsonTree::Object(p)) = v {
        pair_patched("paths"@, texts_tree(c.watch.paths), "exclude"@, texts_tree(c.watch.exclude), p);
        texts_read_back(c.watch.paths);
        texts_read_back(c.watch.exclude);
    }
}

proof fn process_patched(c: ConfigModel, v: Option<JsonTree>)
    requires
        v matches Some(JsonTree::Object(p)) ==> distinct_keys(p),
    ensures
        process_in(merged_section(process_tree(c.process), v)) == patched_process(c.process, v),
{
    names_differ();
    sections_read_back(c);
    if let Some(JsonTree::Object(p)) = v {
        pair_patched(
            "blocklist"@,
            texts_tree(c.process.blocklist),
            "allowlist"@,
            texts_tree(c.process.allowlist),
            p,
        );
        texts_read_back(c.process.blocklist);
        texts_read_back(c.process.allowlist);
    }
}

proof fn ports_patched(c: ConfigModel, v: Option<JsonTree>)
    requires
        v matches Some(JsonTree::Object(p)) ==> distinct_keys(p),
    ensures
        ports_in(merged_section(ports_tree(c.ports), v)) == patched_ports(c.ports, v),
{
    names_differ();
    sections_read_back(c);
    if let Some(JsonTree::Object(p)) = v {
        pair_patched(
            "allowed"@,
            port_specs_tree(c.ports.allowed),
            "alert_unlisted"@,
            JsonTree::Bool(c.ports.alert_unlisted),
            p,
        );
        port_specs_read_back(c.ports.allowed);
    }
}

proof fn alert_patched(c: ConfigModel, v: Option<JsonTree>)
    requires
        v matches Some(JsonTree::Object(p)) ==> distinct_keys(p),
    ensures
        alert_in(merged_section(alert_tree(c.alert), v)) == patched_alert(c.alert, v),
{
    sections_read_back(c);
    if let Some(JsonTree::Object(p)) = v {
        let a = alert_tree(c.alert)->Object_0;
        assert(a[0].0 == "webhook_url"@);
        lookup_distinct(a, 0);
        merged_members_answer(a, p, "webhook_url"@);
    }
}

/// The sections of a configuration with overrides over them.
proof fn merged_config_sections(c: ConfigModel, t: JsonTree)
    ensures
        ({
            let m = merged(config_tree(c), JsonTree::Object(override_sections(t)));
            &&& m is Object
            &&& lookup(m->Object_0, "watch"@) == Some(
                merged_section(watch_tree(c.watch), member(t, "watch"@)),
            )
            &&& lookup(m->Object_0, "process"@) == Some(
                merged_section(process_tree(c.process), member(t, "process"@)),
            )
            &&& lookup(m->Object_0, "ports"@) == Some(
                merged_section(ports_tree(c.ports), member(t, "ports"@)),
            )
            &&& lookup(m->Object_0, "alert"@) == Some(
                merged_section(alert_tree(c.alert), member(t, "alert"@)),
            )
        }),
{
    config_sections(c);
    override_sections_are_members(t);
    let base = config_tree(c)->Object_0;
    let s = override_sections(t);
    merged_members_answer(base, s, "watch"@);
    merged_members_answer(base, s, "process"@);
    merged_members_answer(base, s, "ports"@);
    merged_members_answer(base, s, "alert"@);
}

/// Piped overrides win, section by section and field by field: a field that the
/// overrides name takes their value, every other field keeps its own.
pub proof fn overrides_win_field_by_field(c: ConfigModel, t: JsonTree)
    requires
        section_once(t, "watch"@),
        section_once(t, "process"@),
        section_once(t, "ports"@),
        section_once(t, "alert"@),
    ensures
        overridden(c, t) == patched_config(c, t),
{
    merged_config_sections(c, t);
    watch_patched(c, member(t, "watch"@));
    process_patched(c, member(t, "process"@));
    ports_patched(c, member(t, "ports"@));
    alert_patched(c, member(t, "alert"@));
}

/// The defaults: nothing is watched, no process is listed, the five ports of the ecosystem
/// are allowed and all others alert, and nothing is posted. A document without sections
/// gives them.
pub proof fn defaults_are_these(i: int)
    ensures
        ({
            let c = default_config();
            &&& c.watch.paths.len() == 0
            &&& c.watch.exclude.len() == 0
            &&& c.process.blocklist.len() == 0
            &&& c.process.allowlist.len() == 0
            &&& c.ports.allowed.len() == 5
            &&& 0 <= i < 5 ==> c.ports.allowed[i] == PortSpecModel::Port((8751 + i) as u16)
            &&& c.ports.alert_unlisted
            &&& c.alert.webhook_url.len() == 0
        }),
        config_in(JsonTree::Object(Seq::empty())) == Ok::<ConfigModel, Seq<char>>(
            default_config(),
        ),
{
    let none = Seq::<(Seq<char>, JsonTree)>::empty();
    assert(!has_key(none, "watch"@));
    assert(!has_key(none, "process"@));
    assert(!has_key(none, "ports"@));
    assert(!has_key(none, "alert"@));
}

/// A configuration is read from the document that names its values: the paths and the
/// excludes under `watch`, the lists under `process`, the ports and whether others alert
/// under `ports`, the URL under `alert`.
pub proof fn a_document_says_the_configuration(c: ConfigModel)
    ensures
        ({
            let list = |s: Seq<Seq<char>>|
                JsonTree::Array(s.map_values(|x: Seq<char>| JsonTree::Text(x)));
            let ports = JsonTree::Array(
                c.ports.allowed.map_values(
                    |s: PortSpecModel|
                        match s {
                            PortSpecModel::Port(p) => JsonTree::Int(p as int),
                            PortSpecModel::Range(t) => JsonTree::Text(t),
                        },
                ),
            );
            config_in(
                JsonTree::Object(
                    seq![
                        (
                            "watch"@,
                            JsonTree::Object(
                                seq![
                                    ("paths"@, list(c.watch.paths)),
                                    ("exclude"@, list(c.watch.exclude)),
                                ],
                            ),
                        ),
                        (
                            "process"@,
                            JsonTree::Object(
                                seq![
                                    ("blocklist"@, list(c.process.blocklist)),
                                    ("allowlist"@, list(c.process.allowlist)),
                                ],
                            ),
                        ),
                        (
                            "ports"@,
                            JsonTree::Object(
                                seq![
                                    ("allowed"@, ports),
                                    ("alert_unlisted"@, JsonTree::Bool(c.ports.alert_unlisted)),
                                ],
                            ),
                        ),
                        (
                            "alert"@,
                            JsonTree::Object(
                                seq![("webhook_url"@, JsonTree::Text(c.alert.webhook_url))],
                            ),
                        ),
                    ],
                ),
            ) == Ok::<ConfigModel, Seq<char>>(c)
        }),
{
    config_reads_back(c);
    let ports = c.ports.allowed.map_values(
        |s: PortSpecModel|
            match s {
                PortSpecModel::Port(p) => JsonTree::Int(p as int),
                PortSpecModel::Range(t) => JsonTree::Text(t),
            },
    );
    assert(ports =~= port_specs_tree(c.ports.allowed)->Array_0);
}

/// Each section of a configuration is read by its name, and each field by its own: a
/// section that is missing has its defaults, a list that is missing is empty, and ports
/// that are not listed alert unless that is switched off.
pub proof fn fields_are_read_by_name(s: Seq<(Seq<char>, JsonTree)>, c: ConfigModel)
    requires
        config_in(JsonTree::Object(s)) == Ok::<ConfigModel, Seq<char>>(c),
    ensures
        lookup(s, "watch"@) is None ==> c.watch == default_config().watch,
        lookup(s, "process"@) is None ==> c.process == default_config().process,
        lookup(s, "ports"@) is None ==> c.ports == default_config().ports,
        lookup(s, "alert"@) is None ==> c.alert == default_config().alert,
        lookup(s, "watch"@) matches Some(JsonTree::Object(w)) ==> {
            &&& list_under(w, "paths"@, c.watch.paths)
            &&& list_under(w, "exclude"@, c.watch.exclude)
        },
        lookup(s, "process"@) matches Some(JsonTree::Object(p)) ==> {
            &&& list_under(p, "blocklist"@, c.process.blocklist)
            &&& list_under(p, "allowlist"@, c.process.allowlist)
        },
        lookup(s, "ports"@) matches Some(JsonTree::Object(p)) ==> {
            &&& lookup(p, "allowed"@) is None ==> c.ports.allowed.len() == 0
            &&& lookup(p, "allowed"@) matches Some(t) ==> (t matches JsonTree::Array(a) && a.len()
                == c.ports.allowed.len() && forall|i: int|
                0 <= i < a.len() ==> match #[trigger] c.ports.allowed[i] {
                    PortSpecModel::Port(n) => a[i] == JsonTree::Int(n as int),
                    PortSpecModel::Range(x) => a[i] == JsonTree::Text(x),
                })
            &&& lookup(p, "alert_unlisted"@) is None ==> c.ports.alert_unlisted
            &&& lookup(p, "alert_unlisted"@) matches Some(t) ==> t == JsonTree::Bool(
                c.ports.alert_unlisted,
            )
        },
        lookup(s, "alert"@) matches Some(JsonTree::Object(a)) ==> {
            &&& lookup(a, "webhook_url"@) is None ==> c.alert.webhook_url.len() == 0
            &&& lookup(a, "webhook_url"@) matches Some(t) ==> t == JsonTree::Text(
                c.alert.webhook_url,
            )
        },
{
    let t = JsonTree::Object(s);
    if let Some(JsonTree::Object(w)) = lookup(s, "watch"@) {
        assert(watch_in(JsonTree::Object(w)) == Ok::<WatchModel, Seq<char>>(c.watch));
        if let Some(v) = lookup(w, "paths"@) {
            lists_are_arrays_of_texts(v, c.watch.paths);
        }
        if let Some(v) = lookup(w, "exclude"@) {
            lists_are_arrays_of_texts(v, c.watch.exclude);
        }
    }
    if let Some(JsonTree::Object(p)) = lookup(s, "process"@) {
        assert(process_in(JsonTree::Object(p)) == Ok::<ProcessModel, Seq<char>>(c.process));
        if let Some(v) = lookup(p, "blocklist"@) {
            lists_are_arrays_of_texts(v, c.process.blocklist);
        }
        if let Some(v) = lookup(p, "allowlist"@) {
            lists_are_arrays_of_texts(v, c.process.allowlist);
        }
    }
    if let Some(JsonTree::Object(p)) = lookup(s, "ports"@) {
        assert(ports_in(JsonTree::Object(p)) == Ok::<PortsModel, Seq<char>>(c.ports));
        if let Some(JsonTree::Array(a)) = lookup(p, "allowed"@) {
            assert forall|i: int| 0 <= i < a.len() implies match #[trigger] c.ports.allowed[i] {
                PortSpecModel::Port(n) => a[i] == JsonTree::Int(n as int),
                PortSpecModel::Range(x) => a[i] == JsonTree::Text(x),
            } by {
                assert(port_spec_in(a[i]) is Some);
            }
        }
    }
}

/// Whether a list is what stands under a key: empty where nothing does, else an array of
/// its texts, in their order.
pub open spec fn list_under(
    s: Seq<(Seq<char>, JsonTree)>,
    key: Seq<char>,
    list: Seq<Seq<char>>,
) -> bool {
    match lookup(s, key) {
        None => list.len() == 0,
        Some(t) => t matches JsonTree::Array(a) && a.len() == list.len() && forall|i: int|
            0 <= i < a.len() ==> #[trigger] a[i] == JsonTree::Text(list[i]),
    }
}

/// Whatever `apply_config_overrides` gives, piped values win field by field, and what is
/// not piped in stays.
pub proof fn applied_overrides_win(cfg: &Config, stdin: &Json, r: Result<Config, Misfit>)
    requires
        call_ensures(apply_config_overrides, (cfg, stdin), r),
        section_once(stdin@, "watch"@),
        section_once(stdin@, "process"@),
        section_once(stdin@, "ports"@),
        section_once(stdin@, "alert"@),
    ensures
        match r {
            Ok(c) => patched_config(cfg@, stdin@) == Ok::<ConfigModel, Seq<char>>(c@),
            Err(e) => patched_config(cfg@, stdin@) == Err::<ConfigModel, Seq<char>>(e.at@),
        },
{
    overrides_win_field_by_field(cfg@, stdin@);
}

/// A field of a section takes the piped value where there is one, and keeps its own
/// where there is none: so for each list, for whether other ports alert and for the URL.
pub proof fn a_piped_field_wins(c: ConfigModel, t: JsonTree, d: ConfigModel)
    requires
        patched_config(c, t) == Ok::<ConfigModel, Seq<char>>(d),
    ensures
        member(t, "watch"@) is None ==> d.watch == c.watch,
        member(t, "process"@) is None ==> d.process == c.process,
        member(t, "ports"@) is None ==> d.ports == c.ports,
        member(t, "alert"@) is None ==> d.alert == c.alert,
        member(t, "watch"@) matches Some(JsonTree::Object(p)) ==> {
            &&& !has_key(p, "paths"@) ==> d.watch.paths == c.watch.paths
            &&& has_key(p, "paths"@) ==> list_under(p, "paths"@, d.watch.paths)
            &&& !has_key(p, "exclude"@) ==> d.watch.exclude == c.watch.exclude
            &&& has_key(p, "exclude"@) ==> list_under(p, "exclude"@, d.watch.exclude)
        },
        member(t, "process"@) matches Some(JsonTree::Object(p)) ==> {
            &&& !has_key(p, "blocklist"@) ==> d.process.blocklist == c.process.blocklist
            &&& has_key(p, "blocklist"@) ==> list_under(p, "blocklist"@, d.process.blocklist)
            &&& !has_key(p, "allowlist"@) ==> d.process.allowlist == c.process.allowlist
            &&& has_key(p, "allowlist"@) ==> list_under(p, "allowlist"@, d.process.allowlist)
        },
        member(t, "ports"@) matches Some(JsonTree::Object(p)) ==> {
            &&& !has_key(p, "allowed"@) ==> d.ports.allowed == c.ports.allowed
            &&& lookup(p, "allowed"@) matches Some(v) ==> port_specs_in(v) == Some(d.ports.allowed)
            &&& !has_key(p, "alert_unlisted"@) ==> d.ports.alert_unlisted == c.ports.alert_unlisted
            &&& lookup(p, "alert_unlisted"@) matches Some(v) ==> v == JsonTree::Bool(
                d.ports.alert_unlisted,
            )
        },
        member(t, "alert"@) matches Some(JsonTree::Object(p)) ==> {
            &&& !has_key(p, "webhook_url"@) ==> d.alert == c.alert
            &&& lookup(p, "webhook_url"@) matches Some(v) ==> v == JsonTree::Text(
                d.alert.webhook_url,
            )
        },
{
    if let Some(JsonTree::Object(p)) = member(t, "watch"@) {
        if let Some(v) = lookup(p, "paths"@) {
            lists_are_arrays_of_texts(v, d.watch.paths);
        }
        if let Some(v) = lookup(p, "exclude"@) {
            lists_are_arrays_of_texts(v, d.watch.exclude);
        }
    }
    if let Some(JsonTree::Object(p)) = member(t, "process"@) {
        if let Some(v) = lookup(p, "blocklist"@) {
            lists_are_arrays_of_texts(v, d.process.blocklist);
        }
        if let Some(v) = lookup(p, "allowlist"@) {
            lists_are_arrays_of_texts(v, d.process.allowlist);
        }
    }
}

/// A document loses nothing to its reading but the items of a section that is a list
/// longer than its fields.
pub proof fn only_surplus_is_cut(t: JsonTree, key: Seq<char>, i: int)
    ensures
        t !is Object ==> without_surplus(t) == t,
        t matches JsonTree::Object(s) ==> {
            let w = without_surplus(t);
            &&& w is Object
            &&& w->Object_0.len() == s.len()
            &&& 0 <= i < s.len() ==> w->Object_0[i].0 == s[i].0 && (s[i].1 !is Array
                ==> w->Object_0[i].1 == s[i].1)
            &&& 0 <= i < s.len() && (s[i].1 matches JsonTree::Array(a) && a.len() <= 1)
                ==> w->Object_0[i].1 == s[i].1
        },
{
}

/// Whatever `load_effective` gives: a file that was asked for and is not there is an error
/// that names it; where none was asked for, the defaults with a warning; a file that is no
/// TOML, or not of the shape of a configuration, is an error that names it; what is piped
/// in is laid over what the file says.
pub proof fn the_file_then_what_is_piped_in(
    explicit: bool,
    path: &str,
    text: Option<&str>,
    stdin: Option<&Json>,
    r: Result<(Config, Vec<String>), ConfigError>,
)
    requires
        call_ensures(load_effective, (explicit, path, text, stdin), r),
        stdin is None,
    ensures
        match text {
            None => if explicit {
                r matches Err(ConfigError::NotFound(p)) && p@ == path@
            } else {
                r matches Ok((c, w)) && c@ == default_config() && texts(w@) == seq![
                    "warning: no config file at "@ + path@ + "; using defaults"@,
                ]
            },
            Some(s) => match toml_parsed(s@) {
                Err(e) => r matches Err(ConfigError::Parse(p, m)) && p@ == path@ && m@ == e,
                Ok(t) => match config_in(without_surplus(t)) {
                    Ok(c) => r matches Ok((d, w)) && d@ == c && w@.len() == 0,
                    Err(at) => r matches Err(ConfigError::Parse(p, m)) && p@ == path@ && m@
                        == "unexpected value at "@ + at,
                },
            },
        },
{
    if let Ok((c, w)) = r {
        assert(texts(w@).len() == w@.len());
    }
}

/// Whatever `load_effective` gives with something piped in is what it gives without, with
/// the piped sections over it; where they do not fit, an error says so.
pub proof fn piped_sections_go_over_the_file(
    explicit: bool,
    path: &str,
    text: Option<&str>,
    stdin: &Json,
    base: Result<(Config, Vec<String>), ConfigError>,
    r: Result<(Config, Vec<String>), ConfigError>,
)
    requires
        call_ensures(load_effective, (explicit, path, text, None), base),
        call_ensures(load_effective, (explicit, path, text, Some(stdin)), r),
        section_once(stdin@, "watch"@),
        section_once(stdin@, "process"@),
        section_once(stdin@, "ports"@),
        section_once(stdin@, "alert"@),
    ensures
        base matches Err(e) ==> (r matches Err(f) && f@ == e@),
        base matches Ok((c, w)) ==> match patched_config(c@, stdin@) {
            Ok(d) => r matches Ok((e, v)) && e@ == d && texts(v@) == texts(w@),
            Err(at) => r matches Err(ConfigError::Override(m)) && m@ == "unexpected value at "@
                + at,
        },
{
    if let Ok((c, w)) = base {
        overrides_win_field_by_field(c@, stdin@);
    }
}

/// Whatever these give: the data directory is the override as it stands where it is not
/// blank, else `.adonword` in the home directory, or in the working directory where there
/// is no home; the config file is the one that was asked for, else `adonword.toml` in the
/// data directory.
pub proof fn places_are_these(
    from_env: Option<&str>,
    home: Option<&str>,
    separator: char,
    dir: Dir,
    explicit: Option<&str>,
    path: String,
)
    requires
        call_ensures(data_dir, (from_env, home, separator), dir),
        call_ensures(config_path, (explicit, &dir), path),
    ensures
        dir.separator == separator,
        dir.path@ == if from_env matches Some(e) && trimmed(e@).len() > 0 {
            from_env->Some_0@
        } else {
            joined(
                DirModel {
                    path: if home is Some {
                        home->Some_0@
                    } else {
                        "."@
                    },
                    separator,
                },
                ".adonword"@,
            )
        },
        path@ == if explicit is Some {
            explicit->Some_0@
        } else {
            joined(dir@, "adonword.toml"@)
        },
{
}

/// Whatever a configuration error says names the file and what is wrong.
pub proof fn errors_tell_all(e: &ConfigError, r: String)
    requires
        call_ensures(ConfigError::message, (e,), r),
    ensures
        r@ == match *e {
            ConfigError::NotFound(p) => "config file not found: "@ + p@,
            ConfigError::Parse(p, m) => "failed to parse config file "@ + p@ + ": "@ + m@,
            ConfigError::Override(m) => "failed to apply stdin config overrides: "@ + m@,
        },
{
}

/// What a configuration holds: every path, exclude, pattern and port of its lists.
pub proof fn a_configuration_holds_all(c: Config, i: int)
    ensures
        c@.watch.paths.len() == c.watch.paths@.len(),
        c@.watch.exclude.len() == c.watch.exclude@.len(),
        c@.process.blocklist.len() == c.process.blocklist@.len(),
        c@.process.allowlist.len() == c.process.allowlist@.len(),
        c@.ports.allowed.len() == c.ports.allowed@.len(),
        0 <= i < c.watch.paths@.len() ==> c@.watch.paths[i] == c.watch.paths@[i]@,
        0 <= i < c.watch.exclude@.len() ==> c@.watch.exclude[i] == c.watch.exclude@[i]@,
        0 <= i < c.process.blocklist@.len() ==> c@.process.blocklist[i]
            == c.process.blocklist@[i]@,
        0 <= i < c.process.allowlist@.len() ==> c@.process.allowlist[i]
            == c.process.allowlist@[i]@,
        0 <= i < c.ports.allowed@.len() ==> match c.ports.allowed@[i] {
            PortSpec::Port(p) => c@.ports.allowed[i] == PortSpecModel::Port(p),
            PortSpec::Range(s) => c@.ports.allowed[i] == PortSpecModel::Range(s@),
        },
        c@.ports.alert_unlisted == c.ports.alert_unlisted,
        c@.alert.webhook_url == c.alert.webhook_url@,
{
}

/// Whether what stands under a key, if anything does, is an array of texts.
pub open spec fn list_fits(s: Seq<(Seq<char>, JsonTree)>, key: Seq<char>) -> bool {
    match lookup(s, key) {
        None => true,
        Some(t) => t matches JsonTree::Array(a) && forall|i: int|
            0 <= i < a.len() ==> (#[trigger] a[i]) is Text,
    }
}

/// Whether a section, if it is there, is an object.
pub open spec fn section_fits(s: Seq<(Seq<char>, JsonTree)>, key: Seq<char>) -> bool {
    lookup(s, key) matches Some(t) ==> t is Object
}

/// A document whose sections are objects is a configuration exactly if each field that is
/// there has its kind: arrays of texts, an array of ports and texts, a truth value, a
/// text. Nothing need be there, and what else is there does not matter.
pub proof fn a_configuration_asks_for_kinds_only(s: Seq<(Seq<char>, JsonTree)>)
    requires
        section_fits(s, "watch"@),
        section_fits(s, "process"@),
        section_fits(s, "ports"@),
        section_fits(s, "alert"@),
    ensures
        config_in(JsonTree::Object(s)) is Ok == {
            &&& lookup(s, "watch"@) matches Some(JsonTree::Object(w)) ==> list_fits(w, "paths"@)
                && list_fits(w, "exclude"@)
            &&& lookup(s, "process"@) matches Some(JsonTree::Object(p)) ==> list_fits(
                p,
                "blocklist"@,
            ) && list_fits(p, "allowlist"@)
            &&& lookup(s, "ports"@) matches Some(JsonTree::Object(p)) ==> {
                &&& lookup(p, "allowed"@) matches Some(t) ==> (t matches JsonTree::Array(a)
                    && forall|i: int|
                    0 <= i < a.len() ==> match #[trigger] a[i] {
                        JsonTree::Int(n) => 0 <= n <= 65535,
                        JsonTree::Text(_) => true,
                        _ => false,
                    })
                &&& lookup(p, "alert_unlisted"@) matches Some(t) ==> t is Bool
            }
            &&& lookup(s, "alert"@) matches Some(JsonTree::Object(a)) ==> (lookup(
                a,
                "webhook_url"@,
            ) matches Some(t) ==> t is Text)
        },
{
    if let Some(JsonTree::Object(p)) = lookup(s, "ports"@) {
        if let Some(JsonTree::Array(a)) = lookup(p, "allowed"@) {
            assert forall|i: int| 0 <= i < a.len() implies (port_spec_in(#[trigger] a[i]) is Some)
                == (match a[i] {
                JsonTree::Int(n) => 0 <= n <= 65535,
                JsonTree::Text(_) => true,
                _ => false,
            }) by {}
        }
    }
}

/// A section that is a list keeps as many of its items as it has fields: two for `watch`,
/// `process` and `ports`, one for `alert`. Other keys keep all.
pub proof fn surplus_is_what_has_no_field(s: Seq<(Seq<char>, JsonTree)>, i: int, a: Seq<JsonTree>)
    requires
        0 <= i < s.len(),
        s[i].1 == JsonTree::Array(a),
    ensures
        ({
            let kept = without_surplus(JsonTree::Object(s))->Object_0[i].1;
            let key = s[i].0;
            if key == "watch"@ || key == "process"@ || key == "ports"@ {
                kept == JsonTree::Array(
                    if a.len() > 2 {
                        a.take(2)
                    } else {
                        a
                    },
                )
            } else if key == "alert"@ {
                kept == JsonTree::Array(
                    if a.len() > 1 {
                        a.take(1)
                    } else {
                        a
                    },
                )
            } else {
                kept == JsonTree::Array(a)
            }
        }),
{
}

} // verus!
