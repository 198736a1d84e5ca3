//! Remote monitoring: the documents that the node agents push, the state of
//! every node, the history of the engine and the shared cache.
//!
//! All data here is owned, plain data. Numbers with a fraction are carried as
//! bit patterns; the arithmetic on them is the caller's.
use crate::config;
use crate::config::SparkConfig;
use crate::ieee;
use crate::install;
use crate::json;
use crate::json::{Doc, Json, Number};
use crate::text;
use std::collections::VecDeque;
use vstd::prelude::*;

verus! {

/// One hour of history at the agent's two-second push interval.
pub const SPARK_HISTORY_LEN: usize = 1800;

/// An agent that has not pushed within this window counts as offline: 12 s, as
/// single-precision bits.
pub const OFFLINE_AFTER_S: u32 = 0x4140_0000;

/// GPU temperature above which the popup shows a warning: 80 °C, as
/// single-precision bits.
pub const GPU_TEMP_WARN_C: u32 = 0x42a0_0000;

/// The largest single-precision value: the age of an agent that never pushed.
pub const NEVER: u32 = 0x7f7f_ffff;

/// A cached snapshot younger than this is reused: 1.5 s, as double-precision
/// bits.
pub const CACHE_TTL_S: u64 = 0x3ff8_0000_0000_0000;

/// A refresh lock older than this is considered abandoned.
pub const LOCK_STALE_S: u64 = 10;

/// Node values as pushed by one agent; fractions are single-precision bits.
#[derive(Debug)]
pub struct NodeMetrics {
    pub cpu_pct: u32,
    pub cpu_count: u32,
    pub load1: u32,
    pub mem_used_gib: u32,
    pub mem_total_gib: u32,
    pub mem_pct: u32,
    pub swap_used_gib: u32,
    pub swap_total_gib: u32,
    pub gpu_name: String,
    pub gpu_available: bool,
    pub gpu_util_pct: u32,
    pub gpu_power_w: u32,
    pub gpu_temp_c: u32,
}

/// Node values as characters.
#[verifier::ext_equal]
pub struct Node {
    pub cpu_pct: u32,
    pub cpu_count: u32,
    pub load1: u32,
    pub mem_used_gib: u32,
    pub mem_total_gib: u32,
    pub mem_pct: u32,
    pub swap_used_gib: u32,
    pub swap_total_gib: u32,
    pub gpu_name: Seq<char>,
    pub gpu_available: bool,
    pub gpu_util_pct: u32,
    pub gpu_power_w: u32,
    pub gpu_temp_c: u32,
}

impl View for NodeMetrics {
    type V = Node;

    open spec fn view(&self) -> Node {
        Node {
            cpu_pct: self.cpu_pct,
            cpu_count: self.cpu_count,
            load1: self.load1,
            mem_used_gib: self.mem_used_gib,
            mem_total_gib: self.mem_total_gib,
            mem_pct: self.mem_pct,
            swap_used_gib: self.swap_used_gib,
            swap_total_gib: self.swap_total_gib,
            gpu_name: self.gpu_name@,
            gpu_available: self.gpu_available,
            gpu_util_pct: self.gpu_util_pct,
            gpu_power_w: self.gpu_power_w,
            gpu_temp_c: self.gpu_temp_c,
        }
    }
}

/// vLLM engine values; the agent that hosts the metrics endpoint reports them.
#[derive(Debug)]
pub struct EngineMetrics {
    pub available: bool,
    pub error: Option<String>,
    /// Machine readable reason when unavailable: `pending`, `disabled`,
    /// `no-endpoint`, `timeout` or `error`.
    pub reason: String,
    pub model: String,
    pub running: u32,
    pub waiting: u32,
    pub kv_cache_pct: u32,
    pub gen_tok_s: u32,
    pub prompt_tok_s: u32,
    pub gen_tokens_total: u64,
    pub prompt_tokens_total: u64,
    pub ttft_ms: u32,
    pub spec_accept_pct: Option<u32>,
    pub preemptions_total: u64,
}

/// Engine values as characters.
#[verifier::ext_equal]
pub struct Metrics {
    pub available: bool,
    pub error: Option<Seq<char>>,
    pub reason: Seq<char>,
    pub model: Seq<char>,
    pub running: u32,
    pub waiting: u32,
    pub kv_cache_pct: u32,
    pub gen_tok_s: u32,
    pub prompt_tok_s: u32,
    pub gen_tokens_total: u64,
    pub prompt_tokens_total: u64,
    pub ttft_ms: u32,
    pub spec_accept_pct: Option<u32>,
    pub preemptions_total: u64,
}

impl View for EngineMetrics {
    type V = Metrics;

    open spec fn view(&self) -> Metrics {
        Metrics {
            available: self.available,
            error: match self.error {
                Some(e) => Some(e@),
                None => None,
            },
            reason: self.reason@,
            model: self.model@,
            running: self.running,
            waiting: self.waiting,
            kv_cache_pct: self.kv_cache_pct,
            gen_tok_s: self.gen_tok_s,
            prompt_tok_s: self.prompt_tok_s,
            gen_tokens_total: self.gen_tokens_total,
            prompt_tokens_total: self.prompt_tokens_total,
            ttft_ms: self.ttft_ms,
            spec_accept_pct: self.spec_accept_pct,
            preemptions_total: self.preemptions_total,
        }
    }
}

/// One LLM server the node agent found on its own ports.
#[derive(Debug)]
pub struct EngineInfo {
    pub port: u16,
    /// `vllm`, `openai` or `ollama`.
    pub kind: String,
    pub endpoint: String,
    /// Models the engine currently serves.
    pub models: Vec<String>,
    /// Number of models the engine offers.
    pub model_count: usize,
    /// Models currently loaded in memory (Ollama: `/api/ps`).
    pub loaded: Vec<String>,
    /// Whether the engine publishes metrics the agent can scrape.
    pub has_metrics: bool,
    pub primary: bool,
}

/// An engine as characters.
#[verifier::ext_equal]
pub struct Engine {
    pub port: u16,
    pub kind: Seq<char>,
    pub endpoint: Seq<char>,
    pub models: Seq<Seq<char>>,
    pub model_count: usize,
    pub loaded: Seq<Seq<char>>,
    pub has_metrics: bool,
    pub primary: bool,
}

impl View for EngineInfo {
    type V = Engine;

    open spec fn view(&self) -> Engine {
        Engine {
            port: self.port,
            kind: self.kind@,
            endpoint: self.endpoint@,
            models: text::views(self.models@),
            model_count: self.model_count,
            loaded: text::views(self.loaded@),
            has_metrics: self.has_metrics,
            primary: self.primary,
        }
    }
}

/// `kind:port`.
pub open spec fn engine_label(engine: Engine) -> Seq<char> {
    engine.kind + ":"@ + text::decimal(engine.port as nat)
}

impl EngineInfo {
    pub fn label(&self) -> (r: String)
        ensures
            r@ == engine_label(self@),
    {
        let port = text::from_u64(self.port as u64);
        text::cat3(self.kind.as_str(), ":", port.as_str())
    }
}

/// One client address connected to the node's engine.
#[derive(Debug)]
pub struct ClientConnection {
    pub ip: String,
    pub count: u32,
}

/// A client as characters.
pub struct Client {
    pub ip: Seq<char>,
    pub count: u32,
}

impl View for ClientConnection {
    type V = Client;

    open spec fn view(&self) -> Client {
        Client { ip: self.ip@, count: self.count }
    }
}

/// One monitored node as seen by the UI.
#[derive(Debug)]
pub struct AgentState {
    /// Configured target, e.g. `node-01:8787`.
    pub label: String,
    /// Hostname reported by the agent.
    pub host: String,
    pub online: bool,
    /// Seconds since the last pushed document, as single-precision bits.
    pub age_s: u32,
    /// Reason for the last connection failure, empty while online.
    pub status: String,
    pub uptime_s: u32,
    pub node: NodeMetrics,
    pub engine: EngineMetrics,
    /// Agent version the node reported.
    pub version: String,
    /// Processor name of the node.
    pub cpu_model: String,
    /// GPU name and VRAM values of the node; VRAM as double-precision bits.
    pub gpu_name: String,
    pub gpu_vram_used_mib: u64,
    pub gpu_vram_total_mib: u64,
    /// Engines discovered on this node, most useful first.
    pub engines: Vec<EngineInfo>,
    /// Established connections to the engine, grouped by remote address.
    pub clients: Vec<ClientConnection>,
    /// Port the client connections belong to.
    pub client_port: u16,
}

/// A node as characters.
#[verifier::ext_equal]
pub struct Agent {
    pub label: Seq<char>,
    pub host: Seq<char>,
    pub online: bool,
    pub age_s: u32,
    pub status: Seq<char>,
    pub uptime_s: u32,
    pub node: Node,
    pub engine: Metrics,
    pub version: Seq<char>,
    pub cpu_model: Seq<char>,
    pub gpu_name: Seq<char>,
    pub gpu_vram_used_mib: u64,
    pub gpu_vram_total_mib: u64,
    pub engines: Seq<Engine>,
    pub clients: Seq<Client>,
    pub client_port: u16,
}

pub open spec fn engine_views(list: Seq<EngineInfo>) -> Seq<Engine> {
    list.map_values(|e: EngineInfo| e@)
}

pub open spec fn client_views(list: Seq<ClientConnection>) -> Seq<Client> {
    list.map_values(|c: ClientConnection| c@)
}

impl View for AgentState {
    type V = Agent;

    open spec fn view(&self) -> Agent {
        Agent {
            label: self.label@,
            host: self.host@,
            online: self.online,
            age_s: self.age_s,
            status: self.status@,
            uptime_s: self.uptime_s,
            node: self.node@,
            engine: self.engine@,
            version: self.version@,
            cpu_model: self.cpu_model@,
            gpu_name: self.gpu_name@,
            gpu_vram_used_mib: self.gpu_vram_used_mib,
            gpu_vram_total_mib: self.gpu_vram_total_mib,
            engines: engine_views(self.engines@),
            clients: client_views(self.clients@),
            client_port: self.client_port,
        }
    }
}

/// Node values before anything was reported.
pub open spec fn no_node() -> Node {
    Node {
        cpu_pct: 0,
        cpu_count: 0,
        load1: 0,
        mem_used_gib: 0,
        mem_total_gib: 0,
        mem_pct: 0,
        swap_used_gib: 0,
        swap_total_gib: 0,
        gpu_name: Seq::empty(),
        gpu_available: false,
        gpu_util_pct: 0,
        gpu_power_w: 0,
        gpu_temp_c: 0,
    }
}

/// Engine values before anything was reported.
pub open spec fn no_metrics() -> Metrics {
    Metrics {
        available: false,
        error: None,
        reason: Seq::empty(),
        model: Seq::empty(),
        running: 0,
        waiting: 0,
        kv_cache_pct: 0,
        gen_tok_s: 0,
        prompt_tok_s: 0,
        gen_tokens_total: 0,
        prompt_tokens_total: 0,
        ttft_ms: 0,
        spec_accept_pct: None,
        preemptions_total: 0,
    }
}

/// A node of which only the target is known.
pub open spec fn fresh_agent(label: Seq<char>) -> Agent {
    Agent {
        label,
        host: Seq::empty(),
        online: false,
        age_s: 0,
        status: Seq::empty(),
        uptime_s: 0,
        node: no_node(),
        engine: no_metrics(),
        version: Seq::empty(),
        cpu_model: Seq::empty(),
        gpu_name: Seq::empty(),
        gpu_vram_used_mib: 0,
        gpu_vram_total_mib: 0,
        engines: Seq::empty(),
        clients: Seq::empty(),
        client_port: 0,
    }
}

fn nothing() -> (r: String)
    ensures
        r@ == Seq::<char>::empty(),
{
    let r = String::new();
    assert(r@ =~= Seq::<char>::empty());
    r
}

impl Default for NodeMetrics {
    fn default() -> (r: Self)
        ensures
            r@ == no_node(),
    {
        NodeMetrics {
            cpu_pct: 0,
            cpu_count: 0,
            load1: 0,
            mem_used_gib: 0,
            mem_total_gib: 0,
            mem_pct: 0,
            swap_used_gib: 0,
            swap_total_gib: 0,
            gpu_name: nothing(),
            gpu_available: false,
            gpu_util_pct: 0,
            gpu_power_w: 0,
            gpu_temp_c: 0,
        }
    }
}

impl Default for EngineMetrics {
    fn default() -> (r: Self)
        ensures
            r@ == no_metrics(),
    {
        EngineMetrics {
            available: false,
            error: None,
            reason: nothing(),
            model: nothing(),
            running: 0,
            waiting: 0,
            kv_cache_pct: 0,
            gen_tok_s: 0,
            prompt_tok_s: 0,
            gen_tokens_total: 0,
            prompt_tokens_total: 0,
            ttft_ms: 0,
            spec_accept_pct: None,
            preemptions_total: 0,
        }
    }
}

impl Default for AgentState {
    fn default() -> (r: Self)
        ensures
            r@ == fresh_agent(Seq::empty()),
    {
        proof {
            reveal_strlit("");
            assert(""@ =~= Seq::<char>::empty());
        }
        AgentState::named("")
    }
}

impl AgentState {
    /// A node of which only the target is known.
    pub fn named(label: &str) -> (r: Self)
        ensures
            r@ == fresh_agent(label@),
    {
        let r = AgentState {
            label: text::copy(label),
            host: nothing(),
            online: false,
            age_s: 0,
            status: nothing(),
            uptime_s: 0,
            node: NodeMetrics::default(),
            engine: EngineMetrics::default(),
            version: nothing(),
            cpu_model: nothing(),
            gpu_name: nothing(),
            gpu_vram_used_mib: 0,
            gpu_vram_total_mib: 0,
            engines: Vec::new(),
            clients: Vec::new(),
            client_port: 0,
        };
        assert(engine_views(r.engines@) =~= Seq::empty());
        assert(client_views(r.clients@) =~= Seq::empty());
        r
    }
}

// ---------------------------------------------------------------- reading a document

/// Readings of texts that stand where a number belongs: the text and its value
/// as single-precision bits.
pub open spec fn readings_of(list: Seq<(String, u32)>) -> Seq<(Seq<char>, u32)> {
    list.map_values(|p: (String, u32)| (p.0@, p.1))
}

/// The reading of a text; the first one counts.
pub open spec fn reading(list: Seq<(Seq<char>, u32)>, s: Seq<char>) -> Option<u32>
    decreases list.len(),
{
    if list.len() == 0 {
        None
    } else if list[0].0 == s {
        Some(list[0].1)
    } else {
        reading(list.drop_first(), s)
    }
}

/// The number a document holds as single-precision bits: a JSON number, or a
/// text that reads as one.
pub open spec fn single_in(doc: Option<Doc>, readings: Seq<(Seq<char>, u32)>) -> Option<u32> {
    match doc {
        Some(Doc::Number(n)) => Some(ieee::narrow(json::double_bits(n))),
        Some(Doc::Text(s)) => reading(readings, s),
        _ => None,
    }
}

/// A number of a section, or zero.
pub open spec fn number_at(
    doc: Doc,
    section: Seq<char>,
    key: Seq<char>,
    readings: Seq<(Seq<char>, u32)>,
) -> u32 {
    match single_in(json::member_at(doc, section, key), readings) {
        Some(bits) => bits,
        None => 0,
    }
}

/// A text of a section, or nothing.
pub open spec fn text_at(doc: Doc, section: Seq<char>, key: Seq<char>) -> Seq<char> {
    json::text_or(json::member_at(doc, section, key), Seq::empty())
}

fn find_reading(list: &Vec<(String, u32)>, s: &str) -> (r: Option<u32>)
    ensures
        r == reading(readings_of(list@), s@),
{
    let ghost all = readings_of(list@);
    let mut i: usize = 0;
    assert(all.skip(0) =~= all);
    while i < list.len()
        invariant
            i <= list@.len(),
            all == readings_of(list@),
            reading(all, s@) == reading(all.skip(i as int), s@),
        decreases list@.len() - i,
    {
        assert(all.skip(i as int)[0] == (list@[i as int].0@, list@[i as int].1));
        assert(all.skip(i as int).drop_first() =~= all.skip(i + 1));
        if text::same(list[i].0.as_str(), s) {
            return Some(list[i].1);
        }
        i += 1;
    }
    None
}

fn single_of(value: Option<&Json>, readings: &Vec<(String, u32)>) -> (r: Option<u32>)
    ensures
        r == single_in(json::doc_of(value), readings_of(readings@)),
{
    if let Some(bits) = json::as_double(value) {
        return Some(ieee::to_single(bits));
    }
    match json::as_text(value) {
        Some(s) => find_reading(readings, s.as_str()),
        None => None,
    }
}

fn value_at<'a>(document: &'a Json, section: &str, key: &str) -> (r: Option<&'a Json>)
    ensures
        json::doc_of(r) == json::member_at(document@, section@, key@),
{
    match document.get(section) {
        Some(inner) => inner.get(key),
        None => None,
    }
}

fn read_number(
    document: &Json,
    section: &str,
    key: &str,
    readings: &Vec<(String, u32)>,
) -> (r: u32)
    ensures
        r == number_at(document@, section@, key@, readings_of(readings@)),
{
    match single_of(value_at(document, section, key), readings) {
        Some(bits) => bits,
        None => 0,
    }
}

fn read_text(document: &Json, section: &str, key: &str) -> (r: String)
    ensures
        r@ == text_at(document@, section@, key@),
{
    match json::as_text(value_at(document, section, key)) {
        Some(s) => text::copy(s.as_str()),
        None => nothing(),
    }
}

fn read_flag(document: &Json, section: &str, key: &str) -> (r: bool)
    ensures
        r == json::holds(json::member_at(document@, section@, key@)),
{
    match json::as_bool(value_at(document, section, key)) {
        Some(b) => b,
        None => false,
    }
}

fn plain_text(document: &Json, key: &str) -> (r: String)
    ensures
        r@ == json::text_or(json::member(document@, key@), Seq::empty()),
{
    match json::as_text(document.get(key)) {
        Some(s) => text::copy(s.as_str()),
        None => nothing(),
    }
}

/// The client that an item describes; without an address it is none.
pub open spec fn client_in(doc: Doc) -> Option<Client> {
    match json::text_of(json::member(doc, "ip"@)) {
        Some(ip) => Some(
            Client { ip, count: json::natural_or_zero(json::member(doc, "count"@)) as u32 },
        ),
        None => None,
    }
}

pub open spec fn clients_in(items: Seq<Doc>) -> Seq<Client>
    decreases items.len(),
{
    if items.len() == 0 {
        Seq::empty()
    } else {
        let rest = clients_in(items.drop_last());
        match client_in(items.last()) {
            Some(client) => rest.push(client),
            None => rest,
        }
    }
}

fn read_clients(items: &Vec<Json>) -> (r: Vec<ClientConnection>)
    ensures
        client_views(r@) == clients_in(json::docs(items@)),
{
    let ghost all = json::docs(items@);
    let mut out: Vec<ClientConnection> = Vec::new();
    let mut i: usize = 0;
    assert(all.take(0) =~= Seq::empty());
    assert(client_views(out@) =~= Seq::empty());
    while i < items.len()
        invariant
            i <= items@.len(),
            all == json::docs(items@),
            client_views(out@) == clients_in(all.take(i as int)),
        decreases items@.len() - i,
    {
        let ghost before = out@;
        assert(all.take(i + 1).drop_last() =~= all.take(i as int));
        assert(all.take(i + 1).last() == items@[i as int]@);
        if let Some(ip) = json::as_text(items[i].get("ip")) {
            let client = ClientConnection {
                ip: text::copy(ip.as_str()),
                count: json::member_natural(&items[i], "count") as u32,
            };
            out.push(client);
            assert(client_views(out@) =~= client_views(before).push(client@));
        }
        i += 1;
    }
    assert(all.take(all.len() as int) =~= all);
    out
}

/// The texts of a list member, or none.
pub open spec fn list_in(doc: Doc, key: Seq<char>) -> Seq<Seq<char>> {
    match json::items_of(json::member(doc, key)) {
        Some(items) => json::texts(items),
        None => Seq::empty(),
    }
}

/// The engine that an item describes.
pub open spec fn engine_in(doc: Doc) -> Engine {
    Engine {
        port: json::natural_or_zero(json::member(doc, "port"@)) as u16,
        kind: json::text_or(json::member(doc, "kind"@), "llm"@),
        endpoint: json::text_or(json::member(doc, "endpoint"@), Seq::empty()),
        models: list_in(doc, "models"@),
        model_count: match json::natural_of(json::member(doc, "model_count"@)) {
            Some(n) => n as usize,
            None => match json::items_of(json::member(doc, "models"@)) {
                Some(items) => items.len() as usize,
                None => 0,
            },
        },
        loaded: list_in(doc, "loaded"@),
        has_metrics: match json::text_of(json::member(doc, "metrics"@)) {
            Some(s) => s.len() > 0,
            None => false,
        },
        primary: json::holds(json::member(doc, "primary"@)),
    }
}

fn read_list(value: &Json, key: &str) -> (r: Vec<String>)
    ensures
        text::views(r@) == list_in(value@, key@),
{
    match json::as_array(value.get(key)) {
        Some(items) => json::text_items(items),
        None => {
            let r: Vec<String> = Vec::new();
            assert(text::views(r@) =~= Seq::empty());
            r
        },
    }
}

fn read_engine(value: &Json) -> (r: EngineInfo)
    ensures
        r@ == engine_in(value@),
{
    let listed: usize = match json::as_array(value.get("models")) {
        Some(items) => items.len(),
        None => 0,
    };
    let model_count: usize = match json::as_natural(value.get("model_count")) {
        Some(n) => n as usize,
        None => listed,
    };
    let has_metrics = match json::as_text(value.get("metrics")) {
        Some(s) => !text::is_empty(s.as_str()),
        None => false,
    };
    EngineInfo {
        port: json::member_natural(value, "port") as u16,
        kind: json::member_text(value, "kind", "llm"),
        endpoint: plain_text(value, "endpoint"),
        models: read_list(value, "models"),
        model_count,
        loaded: read_list(value, "loaded"),
        has_metrics,
        primary: json::member_holds(value, "primary"),
    }
}

fn read_engines(items: &Vec<Json>) -> (r: Vec<EngineInfo>)
    ensures
        engine_views(r@) == json::docs(items@).map_values(|d: Doc| engine_in(d)),
{
    let ghost all = json::docs(items@).map_values(|d: Doc| engine_in(d));
    let mut out: Vec<EngineInfo> = Vec::new();
    let mut i: usize = 0;
    while i < items.len()
        invariant
            i <= items@.len(),
            all == json::docs(items@).map_values(|d: Doc| engine_in(d)),
            engine_views(out@) == all.take(i as int),
        decreases items@.len() - i,
    {
        let ghost before = out@;
        let engine = read_engine(&items[i]);
        out.push(engine);
        assert(engine_views(out@) =~= engine_views(before).push(engine@));
        assert(all[i as int] == engine@);
        i += 1;
    }
    assert(engine_views(out@) =~= all);
    out
}

/// The node values of a document.
pub open spec fn node_in(doc: Doc, readings: Seq<(Seq<char>, u32)>) -> Node {
    Node {
        cpu_pct: number_at(doc, "node"@, "cpu_pct"@, readings),
        cpu_count: ieee::clamped(
            number_at(doc, "node"@, "cpu_count"@, readings),
            u32::MAX as nat,
        ) as u32,
        load1: number_at(doc, "node"@, "load1"@, readings),
        mem_used_gib: number_at(doc, "node"@, "mem_used_gib"@, readings),
        mem_total_gib: number_at(doc, "node"@, "mem_total_gib"@, readings),
        mem_pct: number_at(doc, "node"@, "mem_pct"@, readings),
        swap_used_gib: number_at(doc, "node"@, "swap_used_gib"@, readings),
        swap_total_gib: number_at(doc, "node"@, "swap_total_gib"@, readings),
        gpu_name: text_at(doc, "gpu"@, "name"@),
        gpu_available: json::holds(json::member_at(doc, "gpu"@, "available"@)),
        gpu_util_pct: number_at(doc, "gpu"@, "util_pct"@, readings),
        gpu_power_w: number_at(doc, "gpu"@, "power_w"@, readings),
        gpu_temp_c: number_at(doc, "gpu"@, "temp_c"@, readings),
    }
}

/// The engine values of a document.
pub open spec fn metrics_in(doc: Doc, readings: Seq<(Seq<char>, u32)>) -> Metrics {
    Metrics {
        available: json::holds(json::member_at(doc, "vllm"@, "available"@)),
        error: match json::text_of(json::member_at(doc, "vllm"@, "error"@)) {
            Some(e) => if e.len() > 0 {
                Some(e)
            } else {
                None
            },
            None => None,
        },
        reason: text_at(doc, "vllm"@, "reason"@),
        model: text_at(doc, "vllm"@, "model"@),
        running: ieee::clamped(
            number_at(doc, "vllm"@, "running"@, readings),
            u32::MAX as nat,
        ) as u32,
        waiting: ieee::clamped(
            number_at(doc, "vllm"@, "waiting"@, readings),
            u32::MAX as nat,
        ) as u32,
        kv_cache_pct: number_at(doc, "vllm"@, "kv_cache_pct"@, readings),
        gen_tok_s: number_at(doc, "vllm"@, "gen_tok_s"@, readings),
        prompt_tok_s: number_at(doc, "vllm"@, "prompt_tok_s"@, readings),
        gen_tokens_total: ieee::clamped(
            number_at(doc, "vllm"@, "gen_tokens_total"@, readings),
            u64::MAX as nat,
        ) as u64,
        prompt_tokens_total: ieee::clamped(
            number_at(doc, "vllm"@, "prompt_tokens_total"@, readings),
            u64::MAX as nat,
        ) as u64,
        ttft_ms: number_at(doc, "vllm"@, "ttft_ms"@, readings),
        spec_accept_pct: single_in(
            json::member_at(doc, "vllm"@, "spec_accept_pct"@),
            readings,
        ),
        preemptions_total: ieee::clamped(
            number_at(doc, "vllm"@, "preemptions_total"@, readings),
            u64::MAX as nat,
        ) as u64,
    }
}

/// A double-precision number of a section, or zero.
pub open spec fn double_at(doc: Doc, section: Seq<char>, key: Seq<char>) -> u64 {
    match json::double_in(json::member_at(doc, section, key)) {
        Some(bits) => bits,
        None => 0,
    }
}

/// A node after a document: everything it reports is replaced; its target and
/// what is known of the connection stay.
pub open spec fn informed(agent: Agent, doc: Doc, readings: Seq<(Seq<char>, u32)>) -> Agent {
    Agent {
        host: json::text_or(json::member(doc, "host"@), Seq::empty()),
        uptime_s: match single_in(json::member(doc, "uptime_s"@), readings) {
            Some(bits) => bits,
            None => 0,
        },
        node: node_in(doc, readings),
        engine: metrics_in(doc, readings),
        version: json::text_or(json::member(doc, "version"@), Seq::empty()),
        cpu_model: text_at(doc, "node"@, "cpu_model"@),
        gpu_name: text_at(doc, "gpu"@, "name"@),
        gpu_vram_used_mib: double_at(doc, "gpu"@, "vram_used_mib"@),
        gpu_vram_total_mib: double_at(doc, "gpu"@, "vram_total_mib"@),
        engines: match json::items_of(json::member_at(doc, "llm"@, "engines"@)) {
            Some(items) => items.map_values(|d: Doc| engine_in(d)),
            None => Seq::empty(),
        },
        clients: match json::items_of(json::member_at(doc, "clients"@, "connections"@)) {
            Some(items) => clients_in(items),
            None => Seq::empty(),
        },
        client_port: json::natural_or_zero(
            json::member_at(doc, "clients"@, "port"@),
        ) as u16,
        ..agent
    }
}

fn read_node(document: &Json, readings: &Vec<(String, u32)>) -> (r: NodeMetrics)
    ensures
        r@ == node_in(document@, readings_of(readings@)),
{
    NodeMetrics {
        cpu_pct: read_number(document, "node", "cpu_pct", readings),
        cpu_count: ieee::to_u32(read_number(document, "node", "cpu_count", readings)),
        load1: read_number(document, "node", "load1", readings),
        mem_used_gib: read_number(document, "node", "mem_used_gib", readings),
        mem_total_gib: read_number(document, "node", "mem_total_gib", readings),
        mem_pct: read_number(document, "node", "mem_pct", readings),
        swap_used_gib: read_number(document, "node", "swap_used_gib", readings),
        swap_total_gib: read_number(document, "node", "swap_total_gib", readings),
        gpu_name: read_text(document, "gpu", "name"),
        gpu_available: read_flag(document, "gpu", "available"),
        gpu_util_pct: read_number(document, "gpu", "util_pct", readings),
        gpu_power_w: read_number(document, "gpu", "power_w", readings),
        gpu_temp_c: read_number(document, "gpu", "temp_c", readings),
    }
}

fn read_metrics(document: &Json, readings: &Vec<(String, u32)>) -> (r: EngineMetrics)
    ensures
        r@ == metrics_in(document@, readings_of(readings@)),
{
    let error = match json::as_text(value_at(document, "vllm", "error")) {
        Some(e) => if text::is_empty(e.as_str()) {
            None
        } else {
            Some(text::copy(e.as_str()))
        },
        None => None,
    };
    EngineMetrics {
        available: read_flag(document, "vllm", "available"),
        error,
        reason: read_text(document, "vllm", "reason"),
        model: read_text(document, "vllm", "model"),
        running: ieee::to_u32(read_number(document, "vllm", "running", readings)),
        waiting: ieee::to_u32(read_number(document, "vllm", "waiting", readings)),
        kv_cache_pct: read_number(document, "vllm", "kv_cache_pct", readings),
        gen_tok_s: read_number(document, "vllm", "gen_tok_s", readings),
        prompt_tok_s: read_number(document, "vllm", "prompt_tok_s", readings),
        gen_tokens_total: ieee::to_u64(
            read_number(document, "vllm", "gen_tokens_total", readings),
        ),
        prompt_tokens_total: ieee::to_u64(
            read_number(document, "vllm", "prompt_tokens_total", readings),
        ),
        ttft_ms: read_number(document, "vllm", "ttft_ms", readings),
        spec_accept_pct: single_of(value_at(document, "vllm", "spec_accept_pct"), readings),
        preemptions_total: ieee::to_u64(
            read_number(document, "vllm", "preemptions_total", readings),
        ),
    }
}

fn read_double(document: &Json, section: &str, key: &str) -> (r: u64)
    ensures
        r == double_at(document@, section@, key@),
{
    match json::as_double(value_at(document, section, key)) {
        Some(bits) => bits,
        None => 0,
    }
}

impl AgentState {
    /// Takes everything that a document reports.
    pub fn inform(&mut self, document: &Json, readings: &Vec<(String, u32)>)
        ensures
            final(self)@ == informed(old(self)@, document@, readings_of(readings@)),
    {
        self.host = plain_text(document, "host");
        self.uptime_s = match single_of(document.get("uptime_s"), readings) {
            Some(bits) => bits,
            None => 0,
        };
        self.node = read_node(document, readings);
        self.engine = read_metrics(document, readings);
        self.version = plain_text(document, "version");
        self.cpu_model = read_text(document, "node", "cpu_model");
        self.gpu_name = read_text(document, "gpu", "name");
        self.gpu_vram_used_mib = read_double(document, "gpu", "vram_used_mib");
        self.gpu_vram_total_mib = read_double(document, "gpu", "vram_total_mib");
        self.engines = match json::as_array(value_at(document, "llm", "engines")) {
            Some(items) => read_engines(items),
            None => Vec::new(),
        };
        assert(json::items_of(json::member_at(document@, "llm"@, "engines"@)) is None
            ==> engine_views(self.engines@) =~= Seq::empty());
        self.clients = match json::as_array(value_at(document, "clients", "connections")) {
            Some(items) => read_clients(items),
            None => Vec::new(),
        };
        assert(json::items_of(json::member_at(document@, "clients"@, "connections"@)) is None
            ==> client_views(self.clients@) =~= Seq::empty());
        let port: u64 = match json::as_natural(value_at(document, "clients", "port")) {
            Some(n) => n,
            None => 0,
        };
        self.client_port = port as u16;
    }
}

/// Where a document holds numbers: section and key.
pub open spec fn number_paths() -> Seq<(Seq<char>, Seq<char>)> {
    seq![
        ("node"@, "cpu_pct"@),
        ("node"@, "cpu_count"@),
        ("node"@, "load1"@),
        ("node"@, "mem_used_gib"@),
        ("node"@, "mem_total_gib"@),
        ("node"@, "mem_pct"@),
        ("node"@, "swap_used_gib"@),
        ("node"@, "swap_total_gib"@),
        ("gpu"@, "util_pct"@),
        ("gpu"@, "power_w"@),
        ("gpu"@, "temp_c"@),
        ("vllm"@, "running"@),
        ("vllm"@, "waiting"@),
        ("vllm"@, "kv_cache_pct"@),
        ("vllm"@, "gen_tok_s"@),
        ("vllm"@, "prompt_tok_s"@),
        ("vllm"@, "gen_tokens_total"@),
        ("vllm"@, "prompt_tokens_total"@),
        ("vllm"@, "ttft_ms"@),
        ("vllm"@, "preemptions_total"@),
        ("vllm"@, "spec_accept_pct"@),
    ]
}

/// The texts that stand at the given places of a document.
pub open spec fn texts_at(doc: Doc, paths: Seq<(Seq<char>, Seq<char>)>) -> Seq<Seq<char>>
    decreases paths.len(),
{
    if paths.len() == 0 {
        Seq::empty()
    } else {
        let rest = texts_at(doc, paths.drop_last());
        match json::text_of(json::member_at(doc, paths.last().0, paths.last().1)) {
            Some(s) => rest.push(s),
            None => rest,
        }
    }
}

/// The texts that stand where a document should hold a number. Their readings
/// are what `inform` wants to know.
pub open spec fn number_texts_of(doc: Doc) -> Seq<Seq<char>> {
    let inner = texts_at(doc, number_paths());
    match json::text_of(json::member(doc, "uptime_s"@)) {
        Some(s) => inner.push(s),
        None => inner,
    }
}

fn push_text_at(out: &mut Vec<String>, document: &Json, section: &str, key: &str)
    ensures
        text::views(final(out)@) == (match json::text_of(
            json::member_at(document@, section@, key@),
        ) {
            Some(s) => text::views(old(out)@).push(s),
            None => text::views(old(out)@),
        }),
{
    if let Some(s) = json::as_text(value_at(document, section, key)) {
        out.push(text::copy(s.as_str()));
        assert(text::views(out@) =~= text::views(old(out)@).push(s@));
    }
}

/// Lists the texts that stand where a document should hold a number.
pub fn number_texts(document: &Json) -> (r: Vec<String>)
    ensures
        text::views(r@) == number_texts_of(document@),
{
    let ghost paths = number_paths();
    let mut out: Vec<String> = Vec::new();
    let names: Vec<(&str, &str)> = vec![
        ("node", "cpu_pct"),
        ("node", "cpu_count"),
        ("node", "load1"),
        ("node", "mem_used_gib"),
        ("node", "mem_total_gib"),
        ("node", "mem_pct"),
        ("node", "swap_used_gib"),
        ("node", "swap_total_gib"),
        ("gpu", "util_pct"),
        ("gpu", "power_w"),
        ("gpu", "temp_c"),
        ("vllm", "running"),
        ("vllm", "waiting"),
        ("vllm", "kv_cache_pct"),
        ("vllm", "gen_tok_s"),
        ("vllm", "prompt_tok_s"),
        ("vllm", "gen_tokens_total"),
        ("vllm", "prompt_tokens_total"),
        ("vllm", "ttft_ms"),
        ("vllm", "preemptions_total"),
        ("vllm", "spec_accept_pct"),
    ];
    assert(names@.map_values(|p: (&str, &str)| (p.0@, p.1@)) =~= paths);
    let mut i: usize = 0;
    assert(paths.take(0) =~= Seq::empty());
    assert(text::views(out@) =~= Seq::empty());
    while i < names.len()
        invariant
            i <= names@.len(),
            paths == names@.map_values(|p: (&str, &str)| (p.0@, p.1@)),
            text::views(out@) == texts_at(document@, paths.take(i as int)),
        decreases names@.len() - i,
    {
        assert(paths.take(i + 1).drop_last() =~= paths.take(i as int));
        assert(paths.take(i + 1).last() == (names@[i as int].0@, names@[i as int].1@));
        push_text_at(&mut out, document, names[i].0, names[i].1);
        i += 1;
    }
    assert(paths.take(paths.len() as int) =~= paths);
    let ghost before = out@;
    if let Some(s) = json::as_text(document.get("uptime_s")) {
        out.push(text::copy(s.as_str()));
        assert(text::views(out@) =~= text::views(before).push(s@));
    }
    out
}

// ---------------------------------------------------------------- the monitor

/// One node plus the time of its last document, on the caller's clock.
#[derive(Debug)]
pub struct AgentSlot {
    pub state: AgentState,
    pub last_rx: Option<u64>,
}

/// A slot as characters.
#[verifier::ext_equal]
pub struct Slot {
    pub state: Agent,
    pub last_rx: Option<u64>,
}

impl View for AgentSlot {
    type V = Slot;

    open spec fn view(&self) -> Slot {
        Slot { state: self.state@, last_rx: self.last_rx }
    }
}

pub open spec fn slots(list: Seq<AgentSlot>) -> Seq<Slot> {
    list.map_values(|s: AgentSlot| s@)
}

/// The nodes, the history of the engine and what was last seen of each node.
#[derive(Debug)]
pub struct SparkMonitor {
    agents: Vec<AgentSlot>,
    gen_hist: VecDeque<u32>,
    prompt_hist: VecDeque<u32>,
    kv_hist: VecDeque<u32>,
    interval_s: u32,
    last_engine_rx: Option<u64>,
    stamps: Vec<u64>,
    enabled: bool,
}

/// A monitor as characters.
#[verifier::ext_equal]
pub struct Watch {
    pub agents: Seq<Slot>,
    pub gen_hist: Seq<u32>,
    pub prompt_hist: Seq<u32>,
    pub kv_hist: Seq<u32>,
    pub interval_s: u32,
    pub last_engine_rx: Option<u64>,
    pub stamps: Seq<u64>,
    pub enabled: bool,
}

impl View for SparkMonitor {
    type V = Watch;

    closed spec fn view(&self) -> Watch {
        Watch {
            agents: slots(self.agents@),
            gen_hist: self.gen_hist@,
            prompt_hist: self.prompt_hist@,
            kv_hist: self.kv_hist@,
            interval_s: self.interval_s,
            last_engine_rx: self.last_engine_rx,
            stamps: self.stamps@,
            enabled: self.enabled,
        }
    }
}

/// A monitor that has not heard of any node yet.
pub open spec fn fresh_watch(targets: Seq<Seq<char>>, enabled: bool) -> Watch {
    Watch {
        agents: targets.map_values(
            |t: Seq<char>| (Slot { state: fresh_agent(t), last_rx: None }),
        ),
        gen_hist: Seq::empty(),
        prompt_hist: Seq::empty(),
        kv_hist: Seq::empty(),
        interval_s: 0,
        last_engine_rx: None,
        stamps: targets.map_values(|t: Seq<char>| 0u64),
        enabled,
    }
}

/// A history after one more value; the oldest leaves a full one.
pub open spec fn pushed(history: Seq<u32>, value: u32) -> Seq<u32> {
    if history.len() >= SPARK_HISTORY_LEN {
        history.drop_first().push(value)
    } else {
        history.push(value)
    }
}

fn push(history: &mut VecDeque<u32>, value: u32)
    ensures
        final(history)@ == pushed(old(history)@, value),
{
    if history.len() >= SPARK_HISTORY_LEN {
        history.pop_front();
        assert(history@ =~= old(history)@.drop_first());
    }
    history.push_back(value);
}

/// The time since the previous engine sample, and the mean interval blended
/// with it, both as single-precision bits.
#[derive(Debug, Clone, Copy)]
pub struct Timing {
    pub seconds: u32,
    pub blended: u32,
}

/// The observed push interval after an engine sample: intervals from 0.2 s to
/// 30 s count; the first one is taken as it is.
pub open spec fn paced(watch: Watch, timing: Timing) -> u32 {
    if watch.last_engine_rx is Some && ieee::at_least(timing.seconds, 0x3e4c_cccd) && ieee::below(
        timing.seconds,
        0x41f0_0000,
    ) {
        if ieee::at_least(0, watch.interval_s) {
            timing.seconds
        } else {
            timing.blended
        }
    } else {
        watch.interval_s
    }
}

/// The monitor after a document of one node: the node takes the document, and
/// where its engine is available the history grows by one sample.
pub open spec fn received(
    watch: Watch,
    index: int,
    doc: Doc,
    readings: Seq<(Seq<char>, u32)>,
    now: u64,
    timing: Timing,
) -> Watch {
    if 0 <= index < watch.agents.len() {
        let state = informed(watch.agents[index].state, doc, readings);
        let agents = watch.agents.update(index, Slot { state, last_rx: Some(now) });
        if state.engine.available {
            Watch {
                agents,
                gen_hist: pushed(watch.gen_hist, state.engine.gen_tok_s),
                prompt_hist: pushed(watch.prompt_hist, state.engine.prompt_tok_s),
                kv_hist: pushed(watch.kv_hist, state.engine.kv_cache_pct),
                interval_s: paced(watch, timing),
                last_engine_rx: Some(now),
                ..watch
            }
        } else {
            Watch { agents, ..watch }
        }
    } else {
        watch
    }
}

/// The monitor after a node could not be reached: what the node last reported
/// stays, only its engine counts as unavailable.
pub open spec fn missed(watch: Watch, index: int, error: Seq<char>) -> Watch {
    if 0 <= index < watch.agents.len() {
        let slot = watch.agents[index];
        Watch {
            agents: watch.agents.update(
                index,
                Slot {
                    state: Agent {
                        status: error,
                        engine: Metrics { available: false, ..slot.state.engine },
                        ..slot.state
                    },
                    ..slot
                },
            ),
            ..watch
        }
    } else {
        watch
    }
}

/// The time stamp of a document, or zero.
pub open spec fn stamp_of(doc: Doc) -> u64 {
    match json::double_in(json::member(doc, "ts"@)) {
        Some(bits) => bits,
        None => 0,
    }
}

/// Whether a document is the one that was last seen of the node.
pub open spec fn seen_before(watch: Watch, index: int, doc: Doc) -> bool {
    &&& !ieee::is_zero(stamp_of(doc))
    &&& 0 <= index < watch.stamps.len()
    &&& ieee::equal_double(stamp_of(doc), watch.stamps[index])
}

/// The monitor after a refresh brought a document: a document that was seen
/// before changes nothing.
pub open spec fn refreshed(
    watch: Watch,
    index: int,
    doc: Doc,
    readings: Seq<(Seq<char>, u32)>,
    now: u64,
    timing: Timing,
) -> Watch {
    if seen_before(watch, index, doc) {
        watch
    } else {
        let after = received(watch, index, doc, readings, now, timing);
        if 0 <= index < watch.stamps.len() {
            Watch { stamps: watch.stamps.update(index, stamp_of(doc)), ..after }
        } else {
            after
        }
    }
}

/// Reads the text of a document.
pub fn read_document(document: &str) -> (r: Option<Json>)
    ensures
        r matches Some(j) ==> json::json_text(document@) == Some(j@),
        r is None ==> json::json_text(document@) is None,
{
    match json::parse(document) {
        Ok(value) => Some(value),
        Err(_) => None,
    }
}

impl SparkMonitor {
    /// A monitor for the configured targets; nothing has been heard yet.
    pub fn start(config: &SparkConfig) -> (r: Self)
        ensures
            r@ == fresh_watch(config@.targets, config@.enabled),
    {
        let mut agents: Vec<AgentSlot> = Vec::new();
        let mut stamps: Vec<u64> = Vec::new();
        let mut i: usize = 0;
        let ghost all = fresh_watch(config@.targets, config@.enabled);
        while i < config.targets.len()
            invariant
                i <= config.targets@.len(),
                all == fresh_watch(text::views(config.targets@), config.enabled),
                slots(agents@) == all.agents.take(i as int),
                stamps@ == all.stamps.take(i as int),
            decreases config.targets@.len() - i,
        {
            let ghost before = agents@;
            let slot = AgentSlot {
                state: AgentState::named(config.targets[i].as_str()),
                last_rx: None,
            };
            agents.push(slot);
            stamps.push(0);
            assert(slots(agents@) =~= slots(before).push(slot@));
            assert(all.agents[i as int] == slot@);
            i += 1;
        }
        let r = SparkMonitor {
            agents,
            gen_hist: VecDeque::new(),
            prompt_hist: VecDeque::new(),
            kv_hist: VecDeque::new(),
            interval_s: 0,
            last_engine_rx: None,
            stamps,
            enabled: config.enabled,
        };
        assert(slots(r.agents@) =~= all.agents);
        assert(r.stamps@ =~= all.stamps);
        assert(r@ =~= all);
        r
    }

    /// Takes an already parsed document of a node.
    pub fn apply_value(
        &mut self,
        index: usize,
        document: &Json,
        readings: &Vec<(String, u32)>,
        now: u64,
        timing: Timing,
    )
        ensures
            final(self)@ == received(
                old(self)@,
                index as int,
                document@,
                readings_of(readings@),
                now,
                timing,
            ),
    {
        if index >= self.agents.len() {
            return;
        }
        let ghost watch = old(self)@;
        let ghost before = self.agents@;
        let mut slot = AgentSlot { state: AgentState::default(), last_rx: None };
        std::mem::swap(&mut slot, &mut self.agents[index]);
        slot.state.inform(document, readings);
        slot.last_rx = Some(now);
        let available = slot.state.engine.available;
        let gen: u32 = slot.state.engine.gen_tok_s;
        let prompt: u32 = slot.state.engine.prompt_tok_s;
        let kv: u32 = slot.state.engine.kv_cache_pct;
        self.agents.set(index, slot);
        assert(slots(self.agents@) =~= slots(before).update(index as int, slot@));
        if available {
            if self.last_engine_rx.is_some() && ieee::ge(timing.seconds, 0x3e4c_cccd) && ieee::lt(
                timing.seconds,
                0x41f0_0000,
            ) {
                self.interval_s = if ieee::ge(0, self.interval_s) {
                    timing.seconds
                } else {
                    timing.blended
                };
            }
            self.last_engine_rx = Some(now);
            push(&mut self.gen_hist, gen);
            push(&mut self.prompt_hist, prompt);
            push(&mut self.kv_hist, kv);
        }
    }

    /// Parses one pushed document and takes it; what is no JSON is ignored.
    pub fn apply_document(
        &mut self,
        index: usize,
        document: &str,
        readings: &Vec<(String, u32)>,
        now: u64,
        timing: Timing,
    )
        ensures
            final(self)@ == (match json::json_text(document@) {
                Some(doc) => received(
                    old(self)@,
                    index as int,
                    doc,
                    readings_of(readings@),
                    now,
                    timing,
                ),
                None => old(self)@,
            }),
    {
        if let Some(value) = read_document(document) {
            self.apply_value(index, &value, readings, now, timing);
        }
    }

    /// Takes a document that a refresh brought. The cache is read more often
    /// than it is refreshed, so a document that was seen before is skipped.
    pub fn refresh(
        &mut self,
        index: usize,
        document: &Json,
        readings: &Vec<(String, u32)>,
        now: u64,
        timing: Timing,
    )
        ensures
            final(self)@ == refreshed(
                old(self)@,
                index as int,
                document@,
                readings_of(readings@),
                now,
                timing,
            ),
    {
        let stamp: u64 = match json::as_double(document.get("ts")) {
            Some(bits) => bits,
            None => 0,
        };
        let n: usize = self.stamps.len();
        if stamp % 0x8000_0000_0000_0000 != 0 && index < n && ieee::same_double(
            stamp,
            self.stamps[index],
        ) {
            return;
        }
        self.apply_value(index, document, readings, now, timing);
        if index < n {
            self.stamps.set(index, stamp);
        }
    }

    /// Takes what a refresh brought for one node: the text of its document, or
    /// why there is none. What is no JSON is ignored.
    pub fn refresh_entry(
        &mut self,
        index: usize,
        entry: &Result<String, String>,
        readings: &Vec<(String, u32)>,
        now: u64,
        timing: Timing,
    )
        ensures
            final(self)@ == (match *entry {
                Ok(t) => match json::json_text(t@) {
                    Some(doc) => refreshed(
                        old(self)@,
                        index as int,
                        doc,
                        readings_of(readings@),
                        now,
                        timing,
                    ),
                    None => old(self)@,
                },
                Err(e) => missed(old(self)@, index as int, e@),
            }),
    {
        match entry {
            Ok(t) => {
                if let Some(value) = read_document(t.as_str()) {
                    self.refresh(index, &value, readings, now, timing);
                }
            },
            Err(e) => self.mark_unreachable(index, e.as_str()),
        }
    }

    /// Notes why a node could not be reached.
    pub fn mark_unreachable(&mut self, index: usize, error: &str)
        ensures
            final(self)@ == missed(old(self)@, index as int, error@),
    {
        if index >= self.agents.len() {
            return;
        }
        let ghost before = self.agents@;
        let mut slot = AgentSlot { state: AgentState::default(), last_rx: None };
        std::mem::swap(&mut slot, &mut self.agents[index]);
        slot.state.status = text::copy(error);
        slot.state.engine.available = false;
        self.agents.set(index, slot);
        assert(slots(self.agents@) =~= slots(before).update(index as int, slot@));
    }

    /// When each node was last heard of, on the caller's clock.
    pub fn last_seen(&self) -> (r: Vec<Option<u64>>)
        ensures
            r@ == self@.agents.map_values(|s: Slot| s.last_rx),
    {
        let mut out: Vec<Option<u64>> = Vec::new();
        let mut i: usize = 0;
        while i < self.agents.len()
            invariant
                i <= self.agents@.len(),
                out@ == slots(self.agents@).map_values(|s: Slot| s.last_rx).take(i as int),
            decreases self.agents@.len() - i,
        {
            out.push(self.agents[i].last_rx);
            assert(slots(self.agents@).map_values(|s: Slot| s.last_rx)[i as int]
                == self.agents@[i as int].last_rx);
            assert(out@ =~= slots(self.agents@).map_values(|s: Slot| s.last_rx).take(i + 1));
            i += 1;
        }
        assert(out@ =~= slots(self.agents@).map_values(|s: Slot| s.last_rx));
        out
    }

    /// When the engine was last heard of, and the mean interval so far.
    pub fn engine_clock(&self) -> (r: (Option<u64>, u32))
        ensures
            r == (self@.last_engine_rx, self@.interval_s),
    {
        (self.last_engine_rx, self.interval_s)
    }
}

// ---------------------------------------------------------------- the snapshot

impl NodeMetrics {
    fn copy(&self) -> (r: Self)
        ensures
            r@ == self@,
    {
        NodeMetrics {
            cpu_pct: self.cpu_pct,
            cpu_count: self.cpu_count,
            load1: self.load1,
            mem_used_gib: self.mem_used_gib,
            mem_total_gib: self.mem_total_gib,
            mem_pct: self.mem_pct,
            swap_used_gib: self.swap_used_gib,
            swap_total_gib: self.swap_total_gib,
            gpu_name: text::copy(self.gpu_name.as_str()),
            gpu_available: self.gpu_available,
            gpu_util_pct: self.gpu_util_pct,
            gpu_power_w: self.gpu_power_w,
            gpu_temp_c: self.gpu_temp_c,
        }
    }
}

impl EngineMetrics {
    fn copy(&self) -> (r: Self)
        ensures
            r@ == self@,
    {
        EngineMetrics {
            available: self.available,
            error: match &self.error {
                Some(e) => Some(text::copy(e.as_str())),
                None => None,
            },
            reason: text::copy(self.reason.as_str()),
            model: text::copy(self.model.as_str()),
            running: self.running,
            waiting: self.waiting,
            kv_cache_pct: self.kv_cache_pct,
            gen_tok_s: self.gen_tok_s,
            prompt_tok_s: self.prompt_tok_s,
            gen_tokens_total: self.gen_tokens_total,
            prompt_tokens_total: self.prompt_tokens_total,
            ttft_ms: self.ttft_ms,
            spec_accept_pct: self.spec_accept_pct,
            preemptions_total: self.preemptions_total,
        }
    }
}

impl EngineInfo {
    pub fn copy(&self) -> (r: Self)
        ensures
            r@ == self@,
    {
        EngineInfo {
            port: self.port,
            kind: text::copy(self.kind.as_str()),
            endpoint: text::copy(self.endpoint.as_str()),
            models: text::copy_list(&self.models),
            model_count: self.model_count,
            loaded: text::copy_list(&self.loaded),
            has_metrics: self.has_metrics,
            primary: self.primary,
        }
    }
}

fn copy_engines(list: &Vec<EngineInfo>) -> (r: Vec<EngineInfo>)
    ensures
        engine_views(r@) == engine_views(list@),
{
    let mut out: Vec<EngineInfo> = Vec::new();
    let mut i: usize = 0;
    while i < list.len()
        invariant
            i <= list@.len(),
            engine_views(out@) == engine_views(list@).take(i as int),
        decreases list@.len() - i,
    {
        let ghost before = out@;
        let engine = list[i].copy();
        out.push(engine);
        assert(engine_views(out@) =~= engine_views(before).push(engine@));
        i += 1;
    }
    assert(engine_views(out@) =~= engine_views(list@));
    out
}

fn copy_clients(list: &Vec<ClientConnection>) -> (r: Vec<ClientConnection>)
    ensures
        client_views(r@) == client_views(list@),
{
    let mut out: Vec<ClientConnection> = Vec::new();
    let mut i: usize = 0;
    while i < list.len()
        invariant
            i <= list@.len(),
            client_views(out@) == client_views(list@).take(i as int),
        decreases list@.len() - i,
    {
        let ghost before = out@;
        let client = ClientConnection {
            ip: text::copy(list[i].ip.as_str()),
            count: list[i].count,
        };
        out.push(client);
        assert(client_views(out@) =~= client_views(before).push(client@));
        i += 1;
    }
    assert(client_views(out@) =~= client_views(list@));
    out
}

impl AgentState {
    /// A node with the same values.
    pub fn copy(&self) -> (r: Self)
        ensures
            r@ == self@,
    {
        AgentState {
            label: text::copy(self.label.as_str()),
            host: text::copy(self.host.as_str()),
            online: self.online,
            age_s: self.age_s,
            status: text::copy(self.status.as_str()),
            uptime_s: self.uptime_s,
            node: self.node.copy(),
            engine: self.engine.copy(),
            version: text::copy(self.version.as_str()),
            cpu_model: text::copy(self.cpu_model.as_str()),
            gpu_name: text::copy(self.gpu_name.as_str()),
            gpu_vram_used_mib: self.gpu_vram_used_mib,
            gpu_vram_total_mib: self.gpu_vram_total_mib,
            engines: copy_engines(&self.engines),
            clients: copy_clients(&self.clients),
            client_port: self.client_port,
        }
    }
}

/// The name of a node: what it calls itself, else its target without a port.
pub open spec fn display_name_of(agent: Agent) -> Seq<char> {
    if agent.host.len() > 0 {
        agent.host
    } else {
        match text::cut_first(agent.label, ':') {
            Some((name, port)) => if text::all_digits(port) {
                name
            } else {
                agent.label
            },
            None => agent.label,
        }
    }
}

impl AgentState {
    /// Hostname when the agent reported one, otherwise the configured target.
    pub fn display_name(&self) -> (r: String)
        ensures
            r@ == display_name_of(self@),
    {
        if !text::is_empty(self.host.as_str()) {
            return text::copy(self.host.as_str());
        }
        match text::split_once(self.label.as_str(), ':') {
            Some((name, port)) => {
                if text::only_digits(port.as_str()) {
                    name
                } else {
                    text::copy(self.label.as_str())
                }
            },
            None => text::copy(self.label.as_str()),
        }
    }
}

/// Everything the popup needs.
#[derive(Debug)]
pub struct SparkSnapshot {
    pub enabled: bool,
    pub agents: Vec<AgentState>,
    /// Decode token rate in tokens per second, as single-precision bits.
    pub gen_tok_s: Vec<u32>,
    /// Prefill token rate in tokens per second.
    pub prompt_tok_s: Vec<u32>,
    /// KV-cache usage in percent.
    pub kv_pct: Vec<u32>,
    /// Observed push interval of the engine samples in seconds.
    pub interval_s: u32,
}

/// A snapshot as characters.
#[verifier::ext_equal]
pub struct Snapshot {
    pub enabled: bool,
    pub agents: Seq<Agent>,
    pub gen_tok_s: Seq<u32>,
    pub prompt_tok_s: Seq<u32>,
    pub kv_pct: Seq<u32>,
    pub interval_s: u32,
}

pub open spec fn agent_views(list: Seq<AgentState>) -> Seq<Agent> {
    list.map_values(|a: AgentState| a@)
}

impl View for SparkSnapshot {
    type V = Snapshot;

    open spec fn view(&self) -> Snapshot {
        Snapshot {
            enabled: self.enabled,
            agents: agent_views(self.agents@),
            gen_tok_s: self.gen_tok_s@,
            prompt_tok_s: self.prompt_tok_s@,
            kv_pct: self.kv_pct@,
            interval_s: self.interval_s,
        }
    }
}

impl Default for SparkSnapshot {
    fn default() -> (r: Self)
        ensures
            r@ == (Snapshot {
                enabled: false,
                agents: Seq::empty(),
                gen_tok_s: Seq::empty(),
                prompt_tok_s: Seq::empty(),
                kv_pct: Seq::empty(),
                interval_s: 0,
            }),
    {
        let r = SparkSnapshot {
            enabled: false,
            agents: Vec::new(),
            gen_tok_s: Vec::new(),
            prompt_tok_s: Vec::new(),
            kv_pct: Vec::new(),
            interval_s: 0,
        };
        assert(agent_views(r.agents@) =~= Seq::empty());
        r
    }
}

/// The age of a slot; one that never pushed is as old as can be.
pub open spec fn age_of(slot: Slot, ages: Seq<u32>, i: int) -> u32 {
    if slot.last_rx is Some && i < ages.len() {
        ages[i]
    } else {
        NEVER
    }
}

/// A node as the UI sees it: it is online while its last document is young
/// enough, and a reason for a failure is shown only while it is not.
pub open spec fn seen(slot: Slot, ages: Seq<u32>, i: int) -> Agent {
    let age_s = age_of(slot, ages, i);
    let online = ieee::below(age_s, OFFLINE_AFTER_S);
    Agent {
        age_s,
        online,
        status: if online {
            Seq::empty()
        } else {
            slot.state.status
        },
        ..slot.state
    }
}

/// What the UI sees of a monitor.
pub open spec fn snapshot_of(watch: Watch, ages: Seq<u32>) -> Snapshot {
    Snapshot {
        enabled: watch.enabled,
        agents: Seq::new(watch.agents.len(), |i: int| seen(watch.agents[i], ages, i)),
        gen_tok_s: watch.gen_hist,
        prompt_tok_s: watch.prompt_hist,
        kv_pct: watch.kv_hist,
        interval_s: watch.interval_s,
    }
}

fn history_of(history: &VecDeque<u32>) -> (r: Vec<u32>)
    ensures
        r@ == history@,
{
    let mut out: Vec<u32> = Vec::new();
    let mut i: usize = 0;
    while i < history.len()
        invariant
            i <= history@.len(),
            out@ == history@.take(i as int),
        decreases history@.len() - i,
    {
        out.push(history[i]);
        assert(out@ =~= history@.take(i + 1));
        i += 1;
    }
    assert(out@ =~= history@);
    out
}

impl SparkMonitor {
    /// Copies the current state for the view. `ages` holds, for each node, the
    /// seconds since its last document as single-precision bits.
    pub fn snapshot(&self, ages: &Vec<u32>) -> (r: SparkSnapshot)
        ensures
            r@ == snapshot_of(self@, ages@),
    {
        let mut agents: Vec<AgentState> = Vec::new();
        let ghost all = snapshot_of(self@, ages@).agents;
        let mut i: usize = 0;
        while i < self.agents.len()
            invariant
                i <= self.agents@.len(),
                all == snapshot_of(self@, ages@).agents,
                agent_views(agents@) == all.take(i as int),
            decreases self.agents@.len() - i,
        {
            let ghost before = agents@;
            let ghost slot = self.agents@[i as int];
            assert(self@.agents[i as int] == slot@);
            let mut state = self.agents[i].state.copy();
            let age_s: u32 = if self.agents[i].last_rx.is_some() && i < ages.len() {
                ages[i]
            } else {
                NEVER
            };
            state.age_s = age_s;
            state.online = ieee::lt(age_s, OFFLINE_AFTER_S);
            if state.online {
                state.status = nothing();
            }
            agents.push(state);
            assert(state@ == seen(slot@, ages@, i as int));
            assert(agent_views(agents@) =~= agent_views(before).push(state@));
            assert(all[i as int] == state@);
            i += 1;
        }
        assert(agent_views(agents@) =~= all);
        SparkSnapshot {
            enabled: self.enabled,
            agents,
            gen_tok_s: history_of(&self.gen_hist),
            prompt_tok_s: history_of(&self.prompt_hist),
            kv_pct: history_of(&self.kv_hist),
            interval_s: self.interval_s,
        }
    }
}

/// The number of agents that have a property.
pub open spec fn count_where(agents: Seq<Agent>, f: spec_fn(Agent) -> bool) -> nat
    decreases agents.len(),
{
    if agents.len() == 0 {
        0
    } else {
        count_where(agents.drop_last(), f) + if f(agents.last()) {
            1nat
        } else {
            0nat
        }
    }
}

/// The first agent that has a property.
pub open spec fn first_where(agents: Seq<Agent>, f: spec_fn(Agent) -> bool) -> Option<Agent>
    decreases agents.len(),
{
    if agents.len() == 0 {
        None
    } else if f(agents[0]) {
        Some(agents[0])
    } else {
        first_where(agents.drop_first(), f)
    }
}

/// Whether a node reports GPU values.
pub open spec fn has_gpu(agent: Agent) -> bool {
    agent.online && agent.node.gpu_available
}

/// Whether a node's GPU is above the warning threshold.
pub open spec fn is_hot(agent: Agent) -> bool {
    has_gpu(agent) && ieee::below(GPU_TEMP_WARN_C, agent.node.gpu_temp_c)
}

/// The watts of every reachable GPU.
pub open spec fn watts_of(agents: Seq<Agent>) -> Seq<u32>
    decreases agents.len(),
{
    if agents.len() == 0 {
        Seq::empty()
    } else {
        let rest = watts_of(agents.drop_last());
        if has_gpu(agents.last()) {
            rest.push(agents.last().node.gpu_power_w)
        } else {
            rest
        }
    }
}

/// The error of the first agent that has one.
pub open spec fn error_of(agents: Seq<Agent>) -> Option<Seq<char>>
    decreases agents.len(),
{
    if agents.len() == 0 {
        None
    } else {
        match agents[0].engine.error {
            Some(e) => if e.len() > 0 {
                Some(e)
            } else {
                error_of(agents.drop_first())
            },
            None => error_of(agents.drop_first()),
        }
    }
}

/// The connections of a list of clients.
pub open spec fn client_sum_of(clients: Seq<Client>) -> nat
    decreases clients.len(),
{
    if clients.len() == 0 {
        0
    } else {
        client_sum_of(clients.drop_last()) + clients.last().count as nat
    }
}

/// The connections to all reachable nodes.
pub open spec fn connections(agents: Seq<Agent>) -> nat
    decreases agents.len(),
{
    if agents.len() == 0 {
        0
    } else {
        connections(agents.drop_last()) + if agents.last().online {
            client_sum_of(agents.last().clients)
        } else {
            0nat
        }
    }
}

proof fn lemma_client_sum(clients: Seq<Client>)
    ensures
        client_sum_of(clients) <= clients.len() * u32::MAX,
    decreases clients.len(),
{
    if clients.len() > 0 {
        lemma_client_sum(clients.drop_last());
        assert((clients.len() - 1) * u32::MAX + u32::MAX == clients.len() * u32::MAX)
            by (nonlinear_arith);
    }
}

/// The connections of one node.
pub fn client_sum(clients: &Vec<ClientConnection>) -> (r: u128)
    ensures
        r == client_sum_of(client_views(clients@)),
        r <= usize::MAX * u32::MAX,
{
    let ghost all = client_views(clients@);
    let n: usize = clients.len();
    let mut total: u128 = 0;
    let mut i: usize = 0;
    assert(all.take(0) =~= Seq::empty());
    while i < n
        invariant
            i <= n == clients@.len(),
            all == client_views(clients@),
            total == client_sum_of(all.take(i as int)),
        decreases n - i,
    {
        proof {
            lemma_client_sum(all.take(i as int));
            assert(i * u32::MAX <= usize::MAX * u32::MAX) by (nonlinear_arith)
                requires
                    i <= usize::MAX,
            ;
            assert(all.take(i + 1).drop_last() =~= all.take(i as int));
            assert(all.take(i + 1).last() == clients@[i as int]@);
        }
        total = total + clients[i].count as u128;
        i += 1;
    }
    proof {
        assert(all.take(n as int) =~= all);
        lemma_client_sum(all);
        assert(n * u32::MAX <= usize::MAX * u32::MAX) by (nonlinear_arith)
            requires
                n <= usize::MAX,
        ;
    }
    total
}

impl SparkSnapshot {
    pub fn online_count(&self) -> (r: usize)
        ensures
            r == count_where(self@.agents, |a: Agent| a.online),
    {
        let ghost all = self@.agents;
        let ghost f = |a: Agent| a.online;
        let mut count: usize = 0;
        let mut i: usize = 0;
        assert(all.take(0) =~= Seq::empty());
        while i < self.agents.len()
            invariant
                i <= self.agents@.len(),
                all == agent_views(self.agents@),
                f == (|a: Agent| a.online),
                count == count_where(all.take(i as int), f),
                count <= i,
            decreases self.agents@.len() - i,
        {
            assert(all.take(i + 1).drop_last() =~= all.take(i as int));
            assert(all.take(i + 1).last() == self.agents@[i as int]@);
            if self.agents[i].online {
                count += 1;
            }
            i += 1;
        }
        assert(all.take(all.len() as int) =~= all);
        count
    }

    /// GPU nodes that reported a value.
    pub fn gpu_node_count(&self) -> (r: usize)
        ensures
            r == count_where(self@.agents, |a: Agent| has_gpu(a)),
    {
        let ghost all = self@.agents;
        let ghost f = |a: Agent| has_gpu(a);
        let mut count: usize = 0;
        let mut i: usize = 0;
        assert(all.take(0) =~= Seq::empty());
        while i < self.agents.len()
            invariant
                i <= self.agents@.len(),
                all == agent_views(self.agents@),
                f == (|a: Agent| has_gpu(a)),
                count == count_where(all.take(i as int), f),
                count <= i,
            decreases self.agents@.len() - i,
        {
            assert(all.take(i + 1).drop_last() =~= all.take(i as int));
            assert(all.take(i + 1).last() == self.agents@[i as int]@);
            if self.agents[i].online && self.agents[i].node.gpu_available {
                count += 1;
            }
            i += 1;
        }
        assert(all.take(all.len() as int) =~= all);
        count
    }

    /// The agent that currently publishes engine values.
    pub fn engine_agent(&self) -> (r: Option<&AgentState>)
        ensures
            r matches Some(a) ==> first_where(self@.agents, |a: Agent| a.engine.available) == Some(
                a@,
            ),
            r is None ==> first_where(self@.agents, |a: Agent| a.engine.available) is None,
    {
        let ghost all = self@.agents;
        let ghost f = |a: Agent| a.engine.available;
        let mut i: usize = 0;
        assert(all.skip(0) =~= all);
        while i < self.agents.len()
            invariant
                i <= self.agents@.len(),
                all == agent_views(self.agents@),
                f == (|a: Agent| a.engine.available),
                first_where(all, f) == first_where(all.skip(i as int), f),
            decreases self.agents@.len() - i,
        {
            assert(all.skip(i as int)[0] == self.agents@[i as int]@);
            assert(all.skip(i as int).drop_first() =~= all.skip(i + 1));
            if self.agents[i].engine.available {
                return Some(&self.agents[i]);
            }
            i += 1;
        }
        None
    }

    /// First engine error, used when no agent publishes engine values.
    pub fn engine_error(&self) -> (r: Option<String>)
        ensures
            r matches Some(e) ==> error_of(self@.agents) == Some(e@),
            r is None ==> error_of(self@.agents) is None,
    {
        let ghost all = self@.agents;
        let mut i: usize = 0;
        assert(all.skip(0) =~= all);
        while i < self.agents.len()
            invariant
                i <= self.agents@.len(),
                all == agent_views(self.agents@),
                error_of(all) == error_of(all.skip(i as int)),
            decreases self.agents@.len() - i,
        {
            assert(all.skip(i as int)[0] == self.agents@[i as int]@);
            assert(all.skip(i as int).drop_first() =~= all.skip(i + 1));
            if let Some(e) = &self.agents[i].engine.error {
                if !text::is_empty(e.as_str()) {
                    return Some(text::copy(e.as_str()));
                }
            }
            i += 1;
        }
        None
    }

    /// Measured GPU power of every reachable node, as single-precision bits.
    pub fn gpu_watts(&self) -> (r: Vec<u32>)
        ensures
            r@ == watts_of(self@.agents),
    {
        let ghost all = self@.agents;
        let mut out: Vec<u32> = Vec::new();
        let mut i: usize = 0;
        assert(all.take(0) =~= Seq::empty());
        assert(out@ =~= Seq::empty());
        while i < self.agents.len()
            invariant
                i <= self.agents@.len(),
                all == agent_views(self.agents@),
                out@ == watts_of(all.take(i as int)),
            decreases self.agents@.len() - i,
        {
            assert(all.take(i + 1).drop_last() =~= all.take(i as int));
            assert(all.take(i + 1).last() == self.agents@[i as int]@);
            if self.agents[i].online && self.agents[i].node.gpu_available {
                out.push(self.agents[i].node.gpu_power_w);
            }
            i += 1;
        }
        assert(all.take(all.len() as int) =~= all);
        out
    }

    /// Whether this node's GPU is above the warning threshold.
    pub fn node_is_hot(&self, agent: &AgentState) -> (r: bool)
        ensures
            r == is_hot(agent@),
    {
        agent.online && agent.node.gpu_available && ieee::lt(
            GPU_TEMP_WARN_C,
            agent.node.gpu_temp_c,
        )
    }

    /// Total number of established engine connections across all nodes.
    pub fn client_total(&self) -> (r: u32)
        requires
            connections(self@.agents) <= u32::MAX,
        ensures
            r == connections(self@.agents),
    {
        match self.client_count() {
            Some(n) => n,
            None => 0,
        }
    }

    /// Total number of engine connections, where it fits in 32 bits.
    pub fn client_count(&self) -> (r: Option<u32>)
        ensures
            r matches Some(n) ==> n == connections(self@.agents),
            r is None <==> connections(self@.agents) > u32::MAX,
    {
        let ghost all = self@.agents;
        let mut total: u128 = 0;
        let mut i: usize = 0;
        assert(all.take(0) =~= Seq::empty());
        while i < self.agents.len()
            invariant
                i <= self.agents@.len(),
                all == agent_views(self.agents@),
                total == connections(all.take(i as int)),
                total <= u32::MAX,
            decreases self.agents@.len() - i,
        {
            assert(all.take(i + 1).drop_last() =~= all.take(i as int));
            assert(all.take(i + 1).last() == self.agents@[i as int]@);
            if self.agents[i].online {
                let here: u128 = client_sum(&self.agents[i].clients);
                proof {
                    assert(usize::MAX * u32::MAX <= 0xffff_ffff_ffff_ffff * 0xffff_ffff)
                        by (nonlinear_arith)
                        requires
                            usize::MAX <= 0xffff_ffff_ffff_ffff,
                            u32::MAX == 0xffff_ffff,
                    ;
                }
                total = total + here;
                if total > 0xffff_ffff {
                    proof {
                        lemma_connections_grow(all, i + 1);
                    }
                    return None;
                }
            }
            i += 1;
        }
        assert(all.take(all.len() as int) =~= all);
        Some(total as u32)
    }
}

proof fn lemma_connections_grow(agents: Seq<Agent>, k: int)
    requires
        0 <= k <= agents.len(),
    ensures
        connections(agents.take(k)) <= connections(agents),
    decreases agents.len() - k,
{
    if k < agents.len() {
        lemma_connections_grow(agents, k + 1);
        assert(agents.take(k + 1).drop_last() =~= agents.take(k));
    } else {
        assert(agents.take(k) =~= agents);
    }
}

// ---------------------------------------------------------------- laws

/// What holds of every monitor: its three histories are equally long and hold
/// at most one hour.
pub open spec fn sound(watch: Watch) -> bool {
    &&& watch.gen_hist.len() <= SPARK_HISTORY_LEN
    &&& watch.gen_hist.len() == watch.prompt_hist.len()
    &&& watch.gen_hist.len() == watch.kv_hist.len()
    &&& watch.stamps.len() == watch.agents.len()
}

/// A monitor starts sound, and every document and every failure keeps it so.
pub proof fn the_history_stays_bounded(
    watch: Watch,
    index: int,
    doc: Doc,
    readings: Seq<(Seq<char>, u32)>,
    now: u64,
    timing: Timing,
    error: Seq<char>,
    targets: Seq<Seq<char>>,
)
    requires
        sound(watch),
    ensures
        sound(fresh_watch(targets, watch.enabled)),
        sound(received(watch, index, doc, readings, now, timing)),
        sound(refreshed(watch, index, doc, readings, now, timing)),
        sound(missed(watch, index, error)),
{
}

/// A document that comes a second time, as the cache hands it out, leaves the
/// monitor as it is: the history does not grow.
pub proof fn repeated_documents_change_nothing(
    watch: Watch,
    index: int,
    doc: Doc,
    readings: Seq<(Seq<char>, u32)>,
    now: u64,
    later: u64,
    timing: Timing,
    later_timing: Timing,
)
    requires
        0 <= index < watch.stamps.len(),
        !ieee::is_zero(stamp_of(doc)),
        !ieee::is_nan_double(stamp_of(doc)),
    ensures
        ({
            let once = refreshed(watch, index, doc, readings, now, timing);
            refreshed(once, index, doc, readings, later, later_timing) == once
        }),
{
}

/// A node that cannot be reached keeps the last values that it reported; only
/// its engine counts as unavailable, and the history does not grow.
pub proof fn unreachable_nodes_keep_their_values(watch: Watch, index: int, error: Seq<char>)
    requires
        0 <= index < watch.agents.len(),
    ensures
        ({
            let before = watch.agents[index].state;
            let after = missed(watch, index, error).agents[index].state;
            &&& after.node == before.node
            &&& after.engines == before.engines
            &&& after.clients == before.clients
            &&& after.version == before.version
            &&& after.engine == (Metrics { available: false, ..before.engine })
            &&& after.status == error
        }),
        missed(watch, index, error).agents[index].last_rx == watch.agents[index].last_rx,
        missed(watch, index, error).gen_hist == watch.gen_hist,
{
}

/// What one node reports does not touch another.
pub proof fn nodes_do_not_mix(
    watch: Watch,
    index: int,
    other: int,
    doc: Doc,
    readings: Seq<(Seq<char>, u32)>,
    now: u64,
    timing: Timing,
    error: Seq<char>,
)
    requires
        0 <= other < watch.agents.len(),
        other != index,
    ensures
        received(watch, index, doc, readings, now, timing).agents[other] == watch.agents[other],
        missed(watch, index, error).agents[other] == watch.agents[other],
{
}

/// A node that never pushed a document is offline, whatever its age is said to
/// be; a node that is online shows no reason for a failure.
pub proof fn silent_nodes_are_offline(slot: Slot, ages: Seq<u32>, i: int)
    ensures
        slot.last_rx is None ==> !seen(slot, ages, i).online,
        seen(slot, ages, i).online ==> seen(slot, ages, i).status.len() == 0,
{
}

/// The history follows the engine only: a document without an available engine
/// adds nothing to it.
pub proof fn history_follows_the_engine(
    watch: Watch,
    index: int,
    doc: Doc,
    readings: Seq<(Seq<char>, u32)>,
    now: u64,
    timing: Timing,
)
    requires
        !json::holds(json::member_at(doc, "vllm"@, "available"@)),
    ensures
        ({
            let after = received(watch, index, doc, readings, now, timing);
            &&& after.gen_hist == watch.gen_hist
            &&& after.prompt_hist == watch.prompt_hist
            &&& after.kv_hist == watch.kv_hist
            &&& after.interval_s == watch.interval_s
        }),
{
}

/// Whether a value is what a member of a document says, as single-precision
/// bits: a number is narrowed, a text gives its first reading, and anything else
/// counts as zero.
pub open spec fn says(said: Option<Doc>, readings: Seq<(Seq<char>, u32)>, value: u32) -> bool {
    match said {
        Some(Doc::Number(n)) => value == ieee::narrow(json::double_bits(n)),
        Some(Doc::Text(s)) => {
            ||| exists|i: int|
                0 <= i < readings.len() && #[trigger] readings[i] == (s, value) && (forall|j: int|
                    0 <= j < i ==> (#[trigger] readings[j]).0 != s)
            ||| value == 0 && (forall|j: int|
                0 <= j < readings.len() ==> (#[trigger] readings[j]).0 != s)
        },
        _ => value == 0,
    }
}

proof fn lemma_reading(list: Seq<(Seq<char>, u32)>, s: Seq<char>)
    ensures
        match reading(list, s) {
            Some(value) => exists|i: int|
                0 <= i < list.len() && #[trigger] list[i] == (s, value) && (forall|j: int|
                    0 <= j < i ==> (#[trigger] list[j]).0 != s),
            None => forall|j: int| 0 <= j < list.len() ==> (#[trigger] list[j]).0 != s,
        },
    decreases list.len(),
{
    if list.len() > 0 {
        let rest = list.drop_first();
        lemma_reading(rest, s);
        if list[0].0 == s {
            assert(list[0] == (s, list[0].1));
        } else {
            match reading(rest, s) {
                Some(value) => {
                    let i = choose|i: int|
                        0 <= i < rest.len() && #[trigger] rest[i] == (s, value) && (forall|j: int|
                            0 <= j < i ==> (#[trigger] rest[j]).0 != s);
                    assert(list[i + 1] == (s, value));
                    assert forall|j: int| 0 <= j < i + 1 implies (#[trigger] list[j]).0 != s by {
                        if j > 0 {
                            assert(rest[j - 1] == list[j]);
                        }
                    }
                },
                None => {
                    assert forall|j: int| 0 <= j < list.len() implies (#[trigger] list[j]).0
                        != s by {
                        if j > 0 {
                            assert(rest[j - 1] == list[j]);
                        }
                    }
                },
            }
        }
    }
}

proof fn lemma_says(
    doc: Doc,
    section: Seq<char>,
    key: Seq<char>,
    readings: Seq<(Seq<char>, u32)>,
)
    ensures
        says(
            json::member_at(doc, section, key),
            readings,
            number_at(doc, section, key, readings),
        ),
{
    if let Some(Doc::Text(s)) = json::member_at(doc, section, key) {
        lemma_reading(readings, s);
    }
}

/// A document with an available engine puts its generation rate, its prompt rate
/// and its cache usage at the end of the three charts, each in its own. Older
/// values stay in order; only a chart that holds an hour loses its oldest.
pub proof fn charts_follow_the_document(
    watch: Watch,
    index: int,
    doc: Doc,
    readings: Seq<(Seq<char>, u32)>,
    now: u64,
    timing: Timing,
    ages: Seq<u32>,
)
    requires
        0 <= index < watch.agents.len(),
        json::member_at(doc, "vllm"@, "available"@) == Some(Doc::Bool(true)),
        sound(watch),
    ensures
        ({
            let shown = snapshot_of(received(watch, index, doc, readings, now, timing), ages);
            let full = watch.gen_hist.len() == 1800;
            &&& shown.gen_tok_s.len() > 0
            &&& says(
                json::member_at(doc, "vllm"@, "gen_tok_s"@),
                readings,
                shown.gen_tok_s.last(),
            )
            &&& says(
                json::member_at(doc, "vllm"@, "prompt_tok_s"@),
                readings,
                shown.prompt_tok_s.last(),
            )
            &&& says(
                json::member_at(doc, "vllm"@, "kv_cache_pct"@),
                readings,
                shown.kv_pct.last(),
            )
            &&& shown.gen_tok_s.drop_last() == if full {
                watch.gen_hist.skip(1)
            } else {
                watch.gen_hist
            }
            &&& shown.prompt_tok_s.drop_last() == if full {
                watch.prompt_hist.skip(1)
            } else {
                watch.prompt_hist
            }
            &&& shown.kv_pct.drop_last() == if full {
                watch.kv_hist.skip(1)
            } else {
                watch.kv_hist
            }
        }),
{
    lemma_says(doc, "vllm"@, "gen_tok_s"@, readings);
    lemma_says(doc, "vllm"@, "prompt_tok_s"@, readings);
    lemma_says(doc, "vllm"@, "kv_cache_pct"@, readings);
    let shown = snapshot_of(received(watch, index, doc, readings, now, timing), ages);
    let full = watch.gen_hist.len() == 1800;
    assert(shown.gen_tok_s.drop_last() =~= if full {
        watch.gen_hist.skip(1)
    } else {
        watch.gen_hist
    });
    assert(shown.prompt_tok_s.drop_last() =~= if full {
        watch.prompt_hist.skip(1)
    } else {
        watch.prompt_hist
    });
    assert(shown.kv_pct.drop_last() =~= if full {
        watch.kv_hist.skip(1)
    } else {
        watch.kv_hist
    });
}

/// A document with an available engine is the newest sign of the engine. The
/// interval between two of them is noted where it is at least 0.2 s and below
/// 30 s: the first as it is, later ones blended.
pub proof fn engine_documents_set_the_pace(
    watch: Watch,
    index: int,
    doc: Doc,
    readings: Seq<(Seq<char>, u32)>,
    now: u64,
    timing: Timing,
)
    requires
        0 <= index < watch.agents.len(),
        json::member_at(doc, "vllm"@, "available"@) == Some(Doc::Bool(true)),
    ensures
        ({
            let after = received(watch, index, doc, readings, now, timing);
            let counts = watch.last_engine_rx is Some && !ieee::below(timing.seconds, 0x3e4c_cccd)
                && ieee::below(timing.seconds, 0x41f0_0000);
            &&& after.last_engine_rx == Some(now)
            &&& !counts ==> after.interval_s == watch.interval_s
            &&& counts && watch.interval_s == 0 ==> after.interval_s == timing.seconds
            &&& counts && ieee::below(0, watch.interval_s) ==> after.interval_s == timing.blended
        }),
{
}

/// The node that sent a document takes every node and GPU value from the member
/// of that name, and keeps the target by which it is known.
pub proof fn node_values_follow_the_document(
    watch: Watch,
    index: int,
    doc: Doc,
    readings: Seq<(Seq<char>, u32)>,
    now: u64,
    timing: Timing,
)
    requires
        0 <= index < watch.agents.len(),
    ensures
        ({
            let slot = received(watch, index, doc, readings, now, timing).agents[index];
            let node = slot.state.node;
            &&& slot.last_rx == Some(now)
            &&& slot.state.label == watch.agents[index].state.label
            &&& says(json::member_at(doc, "node"@, "cpu_pct"@), readings, node.cpu_pct)
            &&& says(json::member_at(doc, "node"@, "load1"@), readings, node.load1)
            &&& says(json::member_at(doc, "node"@, "mem_used_gib"@), readings, node.mem_used_gib)
            &&& says(json::member_at(doc, "node"@, "mem_total_gib"@), readings, node.mem_total_gib)
            &&& says(json::member_at(doc, "node"@, "mem_pct"@), readings, node.mem_pct)
            &&& says(json::member_at(doc, "node"@, "swap_used_gib"@), readings, node.swap_used_gib)
            &&& says(json::member_at(doc, "node"@, "swap_total_gib"@), readings, node.swap_total_gib)
            &&& says(json::member_at(doc, "gpu"@, "util_pct"@), readings, node.gpu_util_pct)
            &&& says(json::member_at(doc, "gpu"@, "power_w"@), readings, node.gpu_power_w)
            &&& says(json::member_at(doc, "gpu"@, "temp_c"@), readings, node.gpu_temp_c)
            &&& node.gpu_available <==> json::member_at(doc, "gpu"@, "available"@) == Some(
                Doc::Bool(true),
            )
            &&& forall|v: u32| #[trigger]
                says(json::member_at(doc, "node"@, "cpu_count"@), readings, v) ==> node.cpu_count
                    == ieee::clamped(v, 0xffff_ffff)
        }),
{
    lemma_says(doc, "node"@, "cpu_pct"@, readings);
    lemma_says(doc, "node"@, "load1"@, readings);
    lemma_says(doc, "node"@, "mem_used_gib"@, readings);
    lemma_says(doc, "node"@, "mem_total_gib"@, readings);
    lemma_says(doc, "node"@, "mem_pct"@, readings);
    lemma_says(doc, "node"@, "swap_used_gib"@, readings);
    lemma_says(doc, "node"@, "swap_total_gib"@, readings);
    lemma_says(doc, "gpu"@, "util_pct"@, readings);
    lemma_says(doc, "gpu"@, "power_w"@, readings);
    lemma_says(doc, "gpu"@, "temp_c"@, readings);
    lemma_says(doc, "node"@, "cpu_count"@, readings);
    assert forall|v: u32| #[trigger]
        says(json::member_at(doc, "node"@, "cpu_count"@), readings, v) implies v == number_at(
        doc,
        "node"@,
        "cpu_count"@,
        readings,
    ) by {
        lemma_says_once(json::member_at(doc, "node"@, "cpu_count"@), readings, v, number_at(doc, "node"@, "cpu_count"@, readings));
    }
}

proof fn lemma_says_once(said: Option<Doc>, readings: Seq<(Seq<char>, u32)>, a: u32, b: u32)
    requires
        says(said, readings, a),
        says(said, readings, b),
    ensures
        a == b,
{
    if let Some(Doc::Text(s)) = said {
        if exists|i: int| 0 <= i < readings.len() && (#[trigger] readings[i]).0 == s {
            let i = choose|i: int|
                0 <= i < readings.len() && #[trigger] readings[i] == (s, a) && (forall|j: int|
                    0 <= j < i ==> (#[trigger] readings[j]).0 != s);
            let k = choose|i: int|
                0 <= i < readings.len() && #[trigger] readings[i] == (s, b) && (forall|j: int|
                    0 <= j < i ==> (#[trigger] readings[j]).0 != s);
            assert(readings[i] == (s, a));
            assert(readings[k] == (s, b));
            if i < k {
                assert(readings[i].0 != s);
            } else if k < i {
                assert(readings[k].0 != s);
            }
        }
    }
}

/// The node that sent a document takes every engine value from the member of
/// that name.
#[verifier::rlimit(40)]
pub proof fn engine_values_follow_the_document(
    watch: Watch,
    index: int,
    doc: Doc,
    readings: Seq<(Seq<char>, u32)>,
    now: u64,
    timing: Timing,
)
    requires
        0 <= index < watch.agents.len(),
    ensures
        ({
            let engine = received(watch, index, doc, readings, now, timing).agents[index].state.engine;
            &&& engine.available <==> json::member_at(doc, "vllm"@, "available"@) == Some(
                Doc::Bool(true),
            )
            &&& says(json::member_at(doc, "vllm"@, "kv_cache_pct"@), readings, engine.kv_cache_pct)
            &&& says(json::member_at(doc, "vllm"@, "gen_tok_s"@), readings, engine.gen_tok_s)
            &&& says(json::member_at(doc, "vllm"@, "prompt_tok_s"@), readings, engine.prompt_tok_s)
            &&& says(json::member_at(doc, "vllm"@, "ttft_ms"@), readings, engine.ttft_ms)
            &&& forall|v: u32| #[trigger]
                says(json::member_at(doc, "vllm"@, "running"@), readings, v) ==> engine.running
                    == ieee::clamped(v, 0xffff_ffff)
            &&& forall|v: u32| #[trigger]
                says(json::member_at(doc, "vllm"@, "waiting"@), readings, v) ==> engine.waiting
                    == ieee::clamped(v, 0xffff_ffff)
            &&& forall|v: u32| #[trigger]
                says(json::member_at(doc, "vllm"@, "gen_tokens_total"@), readings, v)
                    ==> engine.gen_tokens_total == ieee::clamped(v, 0xffff_ffff_ffff_ffff)
            &&& forall|v: u32| #[trigger]
                says(json::member_at(doc, "vllm"@, "prompt_tokens_total"@), readings, v)
                    ==> engine.prompt_tokens_total == ieee::clamped(v, 0xffff_ffff_ffff_ffff)
            &&& forall|v: u32| #[trigger]
                says(json::member_at(doc, "vllm"@, "preemptions_total"@), readings, v)
                    ==> engine.preemptions_total == ieee::clamped(v, 0xffff_ffff_ffff_ffff)
            &&& engine.spec_accept_pct matches Some(v) ==> says(
                json::member_at(doc, "vllm"@, "spec_accept_pct"@),
                readings,
                v,
            )
            &&& json::member_at(doc, "vllm"@, "spec_accept_pct"@) matches Some(Doc::Number(_))
                ==> engine.spec_accept_pct is Some
            &&& json::member_at(doc, "vllm"@, "spec_accept_pct"@) is None
                ==> engine.spec_accept_pct is None
            &&& json::member_at(doc, "vllm"@, "model"@) matches Some(Doc::Text(s))
                    ==> engine.model == s
            &&& json::member_at(doc, "vllm"@, "reason"@) matches Some(Doc::Text(s))
                    ==> engine.reason == s
            &&& json::member_at(doc, "vllm"@, "error"@) matches Some(Doc::Text(s)) ==> (s.len()
                    > 0 ==> engine.error == Some(s))
            &&& json::member_at(doc, "vllm"@, "error"@) is None ==> engine.error is None
        }),
{
    lemma_says(doc, "vllm"@, "kv_cache_pct"@, readings);
    lemma_says(doc, "vllm"@, "gen_tok_s"@, readings);
    lemma_says(doc, "vllm"@, "prompt_tok_s"@, readings);
    lemma_says(doc, "vllm"@, "ttft_ms"@, readings);
    lemma_says(doc, "vllm"@, "spec_accept_pct"@, readings);
    lemma_only_value(doc, "running"@, readings);
    lemma_only_value(doc, "waiting"@, readings);
    lemma_only_value(doc, "gen_tokens_total"@, readings);
    lemma_only_value(doc, "prompt_tokens_total"@, readings);
    lemma_only_value(doc, "preemptions_total"@, readings);
}

proof fn lemma_only_value(doc: Doc, key: Seq<char>, readings: Seq<(Seq<char>, u32)>)
    ensures
        forall|v: u32| #[trigger]
            says(json::member_at(doc, "vllm"@, key), readings, v) ==> v == number_at(
                doc,
                "vllm"@,
                key,
                readings,
            ),
{
    lemma_says(doc, "vllm"@, key, readings);
    assert forall|v: u32| #[trigger]
        says(json::member_at(doc, "vllm"@, key), readings, v) implies v == number_at(
        doc,
        "vllm"@,
        key,
        readings,
    ) by {
        lemma_says_once(
            json::member_at(doc, "vllm"@, key),
            readings,
            v,
            number_at(doc, "vllm"@, key, readings),
        );
    }
}

/// The node that sent a document takes its names, its memory of the graphics
/// card, its servers and its clients from the members of those names.
pub proof fn descriptions_follow_the_document(
    watch: Watch,
    index: int,
    doc: Doc,
    readings: Seq<(Seq<char>, u32)>,
    now: u64,
    timing: Timing,
)
    requires
        0 <= index < watch.agents.len(),
    ensures
        ({
            let state = received(watch, index, doc, readings, now, timing).agents[index].state;
            &&& json::member(doc, "host"@) matches Some(Doc::Text(s)) ==> state.host == s
            &&& json::member(doc, "version"@) matches Some(Doc::Text(s)) ==> state.version
                    == s
            &&& json::member_at(doc, "node"@, "cpu_model"@) matches Some(Doc::Text(s))
                    ==> state.cpu_model == s
            &&& json::member_at(doc, "gpu"@, "name"@) matches Some(Doc::Text(s))
                    ==> state.gpu_name == s && state.node.gpu_name == s
            &&& json::member_at(doc, "gpu"@, "vram_used_mib"@) matches Some(Doc::Number(n))
                    ==> state.gpu_vram_used_mib == json::double_bits(n)
            &&& json::member_at(doc, "gpu"@, "vram_total_mib"@) matches Some(Doc::Number(n))
                    ==> state.gpu_vram_total_mib == json::double_bits(n)
            &&& json::member(doc, "uptime_s"@) matches Some(Doc::Number(n))
                    ==> state.uptime_s == ieee::narrow(json::double_bits(n))
            &&& json::member_at(doc, "clients"@, "port"@) matches Some(Doc::Number(Number::Natural(n))) ==> (n <= 0xffff ==> state.client_port == n)
            &&& json::member_at(doc, "llm"@, "engines"@) matches Some(Doc::Array(items)) ==> {
                &&& state.engines.len() == items.len()
                &&& forall|i: int|
                    0 <= i < items.len() ==> served(items[i], #[trigger] state.engines[i])
            }
            &&& json::member_at(doc, "llm"@, "engines"@) is None ==> state.engines.len() == 0
            &&& json::member_at(doc, "clients"@, "connections"@) is None ==> state.clients.len()
                == 0
        }),
{
    let state = received(watch, index, doc, readings, now, timing).agents[index].state;
    if let Some(Doc::Array(items)) = json::member_at(doc, "llm"@, "engines"@) {
        assert forall|i: int| 0 <= i < items.len() implies served(
            items[i],
            #[trigger] state.engines[i],
        ) by {
            assert(state.engines[i] == engine_in(items[i]));
        }
    }
}

/// Whether an entry shows what an item says of a server.
pub open spec fn served(item: Doc, engine: Engine) -> bool {
    &&& json::member(item, "port"@) matches Some(Doc::Number(Number::Natural(n))) ==> (n <= 0xffff
            ==> engine.port == n)
    &&& json::member(item, "kind"@) matches Some(Doc::Text(s)) ==> engine.kind == s
    &&& json::member(item, "kind"@) is None ==> engine.kind == "llm"@
    &&& json::member(item, "endpoint"@) matches Some(Doc::Text(s)) ==> engine.endpoint == s
    &&& json::member(item, "models"@) matches Some(Doc::Array(items)) ==> engine.models
        == json::texts(items)
    &&& json::member(item, "loaded"@) matches Some(Doc::Array(items)) ==> engine.loaded
        == json::texts(items)
    &&& json::member(item, "model_count"@) matches Some(Doc::Number(Number::Natural(n))) ==> (n
            <= 0xffff_ffff ==> engine.model_count == n)
    &&& engine.primary <==> json::member(item, "primary"@) == Some(Doc::Bool(true))
    &&& engine.has_metrics <==> (json::member(item, "metrics"@) matches Some(Doc::Text(s))
        && s.len() > 0)
}

/// A client is listed for every item with an address, in order, with the number
/// of its connections.
pub proof fn clients_follow_the_items(items: Seq<Doc>)
    requires
        forall|i: int|
            0 <= i < items.len() ==> json::text_of(
                json::member(#[trigger] items[i], "ip"@),
            ) is Some,
    ensures
        clients_in(items).len() == items.len(),
        forall|i: int|
            0 <= i < items.len() ==> {
                let client = #[trigger] clients_in(items)[i];
                &&& json::member(items[i], "ip"@) == Some(Doc::Text(client.ip))
                &&& json::member(items[i], "count"@) matches Some(
                    Doc::Number(Number::Natural(n)),
                ) ==> (n <= u32::MAX ==> client.count == n)
            },
    decreases items.len(),
{
    if items.len() > 0 {
        let shorter = items.drop_last();
        assert forall|i: int| 0 <= i < shorter.len() implies json::text_of(
            json::member(#[trigger] shorter[i], "ip"@),
        ) is Some by {
            assert(shorter[i] == items[i]);
        }
        clients_follow_the_items(shorter);
        assert(items.last() == items[items.len() - 1]);
        assert forall|i: int| 0 <= i < items.len() implies {
            let client = #[trigger] clients_in(items)[i];
            &&& json::member(items[i], "ip"@) == Some(Doc::Text(client.ip))
            &&& json::member(items[i], "count"@) matches Some(
                Doc::Number(Number::Natural(n)),
            ) ==> (n <= u32::MAX ==> client.count == n)
        } by {
            if i < shorter.len() {
                assert(clients_in(items)[i] == clients_in(shorter)[i]);
                assert(shorter[i] == items[i]);
            }
        }
    }
}

/// A node is online exactly while its last document is less than 12 seconds old.
/// The snapshot shows every node, in order and with the values it last reported,
/// and a reason for a failure only of nodes that are not online.
pub proof fn snapshots_show_every_node(watch: Watch, ages: Seq<u32>, i: int)
    requires
        0 <= i < watch.agents.len(),
    ensures
        ({
            let shown = snapshot_of(watch, ages);
            let state = watch.agents[i].state;
            let agent = shown.agents[i];
            &&& shown.agents.len() == watch.agents.len()
            &&& shown.enabled == watch.enabled
            &&& shown.gen_tok_s == watch.gen_hist
            &&& shown.prompt_tok_s == watch.prompt_hist
            &&& shown.kv_pct == watch.kv_hist
            &&& shown.interval_s == watch.interval_s
            &&& agent.online <==> watch.agents[i].last_rx is Some && i < ages.len() && ieee::below(
                ages[i],
                0x4140_0000,
            )
            &&& agent.online ==> agent.age_s == ages[i] && agent.status.len() == 0
            &&& !agent.online ==> agent.status == state.status
            &&& agent.label == state.label
            &&& agent.host == state.host
            &&& agent.node == state.node
            &&& agent.engine == state.engine
            &&& agent.engines == state.engines
            &&& agent.clients == state.clients
            &&& agent.version == state.version
        }),
{
}

/// A node that has just been started knows its targets and nothing else: each
/// target has its node, and none of them is online.
pub proof fn monitors_start_empty(targets: Seq<Seq<char>>, enabled: bool, ages: Seq<u32>, i: int)
    requires
        0 <= i < targets.len(),
    ensures
        ({
            let shown = snapshot_of(fresh_watch(targets, enabled), ages);
            &&& shown.agents.len() == targets.len()
            &&& shown.agents[i].label == targets[i]
            &&& !shown.agents[i].online
            &&& !shown.agents[i].engine.available
            &&& shown.gen_tok_s.len() == 0
            &&& shown.prompt_tok_s.len() == 0
            &&& shown.kv_pct.len() == 0
            &&& shown.enabled == enabled
        }),
{
}

/// Counting finds every agent with the property, once each.
pub proof fn counting_is_filtering(agents: Seq<Agent>, f: spec_fn(Agent) -> bool)
    ensures
        count_where(agents, f) == agents.filter(f).len(),
    decreases agents.len(),
{
    reveal(Seq::filter);
    if agents.len() > 0 {
        counting_is_filtering(agents.drop_last(), f);
    }
}

/// The first agent with a property has it, and none before it does.
pub proof fn the_first_comes_first(agents: Seq<Agent>, f: spec_fn(Agent) -> bool)
    ensures
        match first_where(agents, f) {
            Some(agent) => exists|i: int|
                0 <= i < agents.len() && #[trigger] agents[i] == agent && f(agent) && (forall|
                    j: int,
                |
                    0 <= j < i ==> !f(#[trigger] agents[j])),
            None => forall|j: int| 0 <= j < agents.len() ==> !f(#[trigger] agents[j]),
        },
    decreases agents.len(),
{
    if agents.len() > 0 {
        let rest = agents.drop_first();
        the_first_comes_first(rest, f);
        if f(agents[0]) {
            assert(agents[0] == first_where(agents, f)->0);
        } else {
            match first_where(rest, f) {
                Some(agent) => {
                    let i = choose|i: int|
                        0 <= i < rest.len() && #[trigger] rest[i] == agent && f(agent) && (forall|
                            j: int,
                        |
                            0 <= j < i ==> !f(#[trigger] rest[j]));
                    assert(agents[i + 1] == agent);
                    assert forall|j: int| 0 <= j < i + 1 implies !f(#[trigger] agents[j]) by {
                        if j > 0 {
                            assert(rest[j - 1] == agents[j]);
                        }
                    }
                },
                None => {
                    assert forall|j: int| 0 <= j < agents.len() implies !f(
                        #[trigger] agents[j],
                    ) by {
                        if j > 0 {
                            assert(rest[j - 1] == agents[j]);
                        }
                    }
                },
            }
        }
    }
}

/// The error shown is that of the first agent with an error that is not empty.
pub proof fn the_first_error_is_shown(agents: Seq<Agent>)
    ensures
        ({
            let f = |a: Agent| a.engine.error matches Some(e) && e.len() > 0;
            match first_where(agents, f) {
                Some(agent) => error_of(agents) == agent.engine.error,
                None => error_of(agents) is None,
            }
        }),
    decreases agents.len(),
{
    if agents.len() > 0 {
        the_first_error_is_shown(agents.drop_first());
    }
}

/// The watts are those of the nodes that are online with a graphics card, in
/// order; a node that is hot is one of these, and warmer than 80 degrees.
pub proof fn watts_come_from_reachable_cards(agents: Seq<Agent>, agent: Agent)
    ensures
        watts_of(agents.push(agent)) == if agent.online && agent.node.gpu_available {
            watts_of(agents).push(agent.node.gpu_power_w)
        } else {
            watts_of(agents)
        },
        watts_of(Seq::empty()).len() == 0,
        is_hot(agent) <==> agent.online && agent.node.gpu_available && ieee::below(
            0x42a0_0000,
            agent.node.gpu_temp_c,
        ),
{
    assert(agents.push(agent).drop_last() =~= agents);
}

/// The connections add up over the clients of a node and over the nodes that are
/// online.
pub proof fn connections_add_up(agents: Seq<Agent>, agent: Agent, clients: Seq<Client>, client: Client)
    ensures
        client_sum_of(clients.push(client)) == client_sum_of(clients) + client.count,
        client_sum_of(Seq::empty()) == 0,
        connections(agents.push(agent)) == connections(agents) + if agent.online {
            client_sum_of(agent.clients)
        } else {
            0
        },
        connections(Seq::empty()) == 0,
{
    assert(agents.push(agent).drop_last() =~= agents);
    assert(clients.push(client).drop_last() =~= clients);
}

/// A refresh takes a document with another time stamp, or with none, as if the
/// node had pushed it, and remembers the stamp.
pub proof fn new_documents_are_taken(
    watch: Watch,
    index: int,
    doc: Doc,
    readings: Seq<(Seq<char>, u32)>,
    now: u64,
    timing: Timing,
    stamp: u64,
)
    requires
        sound(watch),
        0 <= index < watch.agents.len(),
        json::member(doc, "ts"@) == Some(Doc::Number(Number::Double(stamp))),
        stamp % 0x8000_0000_0000_0000 == 0 || stamp != watch.stamps[index],
    ensures
        ({
            let after = refreshed(watch, index, doc, readings, now, timing);
            let pushed = received(watch, index, doc, readings, now, timing);
            &&& after.stamps == watch.stamps.update(index, stamp)
            &&& after == (Watch { stamps: after.stamps, ..pushed })
        }),
{
}

/// A node is called what it calls itself; one that has not said so yet is called
/// by its target, without the port.
pub proof fn nodes_have_names(agent: Agent, name: Seq<char>, port: Seq<char>)
    requires
        !name.contains(':'),
        text::all_digits(port),
    ensures
        agent.host.len() > 0 ==> display_name_of(agent) == agent.host,
        agent.host.len() == 0 && agent.label == name ==> display_name_of(agent) == name,
        agent.host.len() == 0 && agent.label == name + ":"@ + port ==> display_name_of(agent)
            == name,
{
    reveal_strlit(":");
    let label = name + ":"@ + port;
    text::lemma_first_at(label, ':');
    text::lemma_first_at(name, ':');
    assert(label[name.len() as int] == ':');
    assert(forall|k: int| 0 <= k < name.len() ==> label[k] == name[k] && name.contains(name[k]));
    assert(label.take(name.len() as int) =~= name);
    assert(label.skip((name.len() + 1) as int) =~= port);
}

/// Wherever a document should hold a number and holds a text, the text is looked
/// up.
pub proof fn texts_for_numbers_are_looked_up(doc: Doc, section: Seq<char>, key: Seq<char>, s: Seq<char>)
    requires
        json::member_at(doc, section, key) == Some(Doc::Text(s)),
        ({
            ||| section == "node"@ && (key == "cpu_pct"@ || key == "cpu_count"@ || key == "load1"@
                || key == "mem_used_gib"@ || key == "mem_total_gib"@ || key == "mem_pct"@ || key
                == "swap_used_gib"@ || key == "swap_total_gib"@)
            ||| section == "gpu"@ && (key == "util_pct"@ || key == "power_w"@ || key == "temp_c"@)
            ||| section == "vllm"@ && (key == "running"@ || key == "waiting"@ || key
                == "kv_cache_pct"@ || key == "gen_tok_s"@ || key == "prompt_tok_s"@ || key
                == "gen_tokens_total"@ || key == "prompt_tokens_total"@ || key == "ttft_ms"@ || key
                == "preemptions_total"@ || key == "spec_accept_pct"@)
        }),
    ensures
        number_texts_of(doc).contains(s),
{
    let paths = number_paths();
    assert(paths[0] == ("node"@, "cpu_pct"@) && paths[1] == ("node"@, "cpu_count"@) && paths[2] == (
        "node"@,
        "load1"@,
    ) && paths[3] == ("node"@, "mem_used_gib"@) && paths[4] == ("node"@, "mem_total_gib"@)
        && paths[5] == ("node"@, "mem_pct"@) && paths[6] == ("node"@, "swap_used_gib"@) && paths[7]
        == ("node"@, "swap_total_gib"@));
    assert(paths[8] == ("gpu"@, "util_pct"@) && paths[9] == ("gpu"@, "power_w"@) && paths[10] == (
        "gpu"@,
        "temp_c"@,
    ));
    assert(paths[11] == ("vllm"@, "running"@) && paths[12] == ("vllm"@, "waiting"@) && paths[13] == (
        "vllm"@,
        "kv_cache_pct"@,
    ) && paths[14] == ("vllm"@, "gen_tok_s"@) && paths[15] == ("vllm"@, "prompt_tok_s"@)
        && paths[16] == ("vllm"@, "gen_tokens_total"@) && paths[17] == (
        "vllm"@,
        "prompt_tokens_total"@,
    ) && paths[18] == ("vllm"@, "ttft_ms"@) && paths[19] == ("vllm"@, "preemptions_total"@)
        && paths[20] == ("vllm"@, "spec_accept_pct"@));
    assert(paths.contains((section, key)));
    let i = choose|i: int| 0 <= i < paths.len() && paths[i] == (section, key);
    lemma_text_at(doc, paths, i, s);
    let inner = texts_at(doc, paths);
    let k = choose|k: int| 0 <= k < inner.len() && inner[k] == s;
    assert(number_texts_of(doc)[k] == s);
}

proof fn lemma_text_at(doc: Doc, paths: Seq<(Seq<char>, Seq<char>)>, i: int, s: Seq<char>)
    requires
        0 <= i < paths.len(),
        json::member_at(doc, paths[i].0, paths[i].1) == Some(Doc::Text(s)),
    ensures
        texts_at(doc, paths).contains(s),
    decreases paths.len(),
{
    let all = texts_at(doc, paths);
    if i == paths.len() - 1 {
        assert(all.last() == s);
    } else {
        let shorter = paths.drop_last();
        lemma_text_at(doc, shorter, i, s);
        let rest = texts_at(doc, shorter);
        let k = choose|k: int| 0 <= k < rest.len() && rest[k] == s;
        assert(all[k] == s);
    }
}

/// A server is called by its kind and its port.
pub proof fn servers_are_called_by_kind_and_port(engine: Engine)
    ensures
        engine_label(engine) == engine.kind + ":"@ + text::decimal(engine.port as nat),
{
}

/// Caches age and locks are abandoned after fixed times, and a history holds an
/// hour.
pub proof fn limits_are_settled()
    ensures
        2 * SPARK_HISTORY_LEN == 3600,
        LOCK_STALE_S == 10,
        CACHE_TTL_S == 0x3ff8_0000_0000_0000,
        OFFLINE_AFTER_S == ieee::narrow(ieee::double_of(12)),
        GPU_TEMP_WARN_C == ieee::narrow(ieee::double_of(80)),
{
    reveal_with_fuel(ieee::top, 8);
    ieee::lemma_two_more();
}

/// Whole numbers of a document stay what they are: requests, cores and tokens are
/// counted as the node counts them.
pub proof fn whole_numbers_are_kept(
    watch: Watch,
    index: int,
    doc: Doc,
    readings: Seq<(Seq<char>, u32)>,
    now: u64,
    timing: Timing,
    key: Seq<char>,
    n: u64,
)
    requires
        0 <= index < watch.agents.len(),
        n < 0x100_0000,
        json::member_at(doc, "vllm"@, key) == Some(Doc::Number(Number::Natural(n)))
            || json::member_at(doc, "node"@, key) == Some(Doc::Number(Number::Natural(n))),
    ensures
        ({
            let state = received(watch, index, doc, readings, now, timing).agents[index].state;
            let engine = json::member_at(doc, "vllm"@, key) == Some(
                Doc::Number(Number::Natural(n)),
            );
            let node = json::member_at(doc, "node"@, key) == Some(Doc::Number(Number::Natural(n)));
            &&& engine && key == "running"@ ==> state.engine.running == n
            &&& engine && key == "waiting"@ ==> state.engine.waiting == n
            &&& engine && key == "gen_tokens_total"@ ==> state.engine.gen_tokens_total == n
            &&& engine && key == "prompt_tokens_total"@ ==> state.engine.prompt_tokens_total == n
            &&& engine && key == "preemptions_total"@ ==> state.engine.preemptions_total == n
            &&& node && key == "cpu_count"@ ==> state.node.cpu_count == n
        }),
{
    ieee::small_integers_are_exact(n as nat, u32::MAX as nat);
    ieee::small_integers_are_exact(n as nat, u64::MAX as nat);
}

} // verus!
