//! The document that the agent pushes, and what it knows of the engine whose
//! metrics it reads.
//!
//! Fractions are double-precision bits throughout.
use crate::engines;
use crate::engines::{Engine, Server};
use crate::json;
use crate::json::{Doc, Json, Number};
use crate::sockets;
use crate::text;
use vstd::prelude::*;

verus! {

// ---------------------------------------------------------------- the engine's values

/// What the agent knows of the engine whose metrics it reads.
#[derive(Debug)]
pub struct LlmState {
    pub available: bool,
    pub error: String,
    /// `pending`, `no-endpoint`, or empty.
    pub reason: String,
    pub model: String,
    pub running: u64,
    pub waiting: u64,
    pub kv_cache_pct: u64,
    pub gen_tokens_total: u64,
    pub prompt_tokens_total: u64,
    pub preemptions_total: u64,
    pub ttft_ms: u64,
    pub gen_tok_s: u64,
    pub prompt_tok_s: u64,
    pub spec_accept_pct: Option<u64>,
}

/// The engine's values as characters.
#[verifier::ext_equal]
pub struct Llm {
    pub available: bool,
    pub error: Seq<char>,
    pub reason: Seq<char>,
    pub model: Seq<char>,
    pub running: u64,
    pub waiting: u64,
    pub kv_cache_pct: u64,
    pub gen_tokens_total: u64,
    pub prompt_tokens_total: u64,
    pub preemptions_total: u64,
    pub ttft_ms: u64,
    pub gen_tok_s: u64,
    pub prompt_tok_s: u64,
    pub spec_accept_pct: Option<u64>,
}

impl View for LlmState {
    type V = Llm;

    open spec fn view(&self) -> Llm {
        Llm {
            available: self.available,
            error: self.error@,
            reason: self.reason@,
            model: self.model@,
            running: self.running,
            waiting: self.waiting,
            kv_cache_pct: self.kv_cache_pct,
            gen_tokens_total: self.gen_tokens_total,
            prompt_tokens_total: self.prompt_tokens_total,
            preemptions_total: self.preemptions_total,
            ttft_ms: self.ttft_ms,
            gen_tok_s: self.gen_tok_s,
            prompt_tok_s: self.prompt_tok_s,
            spec_accept_pct: self.spec_accept_pct,
        }
    }
}

/// No values, for a reason.
pub open spec fn missing(reason: Seq<char>, error: Seq<char>) -> Llm {
    Llm {
        available: false,
        error,
        reason,
        model: Seq::empty(),
        running: 0,
        waiting: 0,
        kv_cache_pct: 0,
        gen_tokens_total: 0,
        prompt_tokens_total: 0,
        preemptions_total: 0,
        ttft_ms: 0,
        gen_tok_s: 0,
        prompt_tok_s: 0,
        spec_accept_pct: None,
    }
}

impl LlmState {
    fn missing(reason: &str, error: &str) -> (r: Self)
        ensures
            r@ == missing(reason@, error@),
    {
        let model = String::new();
        assert(model@ =~= Seq::empty());
        LlmState {
            available: false,
            error: text::copy(error),
            reason: text::copy(reason),
            model,
            running: 0,
            waiting: 0,
            kv_cache_pct: 0,
            gen_tokens_total: 0,
            prompt_tokens_total: 0,
            preemptions_total: 0,
            ttft_ms: 0,
            gen_tok_s: 0,
            prompt_tok_s: 0,
            spec_accept_pct: None,
        }
    }

    pub fn copy(&self) -> (r: Self)
        ensures
            r@ == self@,
    {
        LlmState {
            available: self.available,
            error: text::copy(self.error.as_str()),
            reason: text::copy(self.reason.as_str()),
            model: text::copy(self.model.as_str()),
            running: self.running,
            waiting: self.waiting,
            kv_cache_pct: self.kv_cache_pct,
            gen_tokens_total: self.gen_tokens_total,
            prompt_tokens_total: self.prompt_tokens_total,
            preemptions_total: self.preemptions_total,
            ttft_ms: self.ttft_ms,
            gen_tok_s: self.gen_tok_s,
            prompt_tok_s: self.prompt_tok_s,
            spec_accept_pct: self.spec_accept_pct,
        }
    }
}

/// The metrics of the last reading: when it was made, and what it gave.
pub type Reading = (u64, Vec<(String, u64)>);

/// Named values as characters.
pub open spec fn named(list: Seq<(String, u64)>) -> Seq<(Seq<char>, u64)> {
    list.map_values(|p: (String, u64)| (p.0@, p.1))
}

/// Follows the metrics of one engine.
#[derive(Debug)]
pub struct LlmCollector {
    state: LlmState,
    url: String,
    previous: Option<Reading>,
}

/// What the collector knows, as characters.
#[verifier::ext_equal]
pub struct Collector {
    pub state: Llm,
    pub url: Seq<char>,
    pub previous: Option<(u64, Seq<(Seq<char>, u64)>)>,
}

impl View for LlmCollector {
    type V = Collector;

    closed spec fn view(&self) -> Collector {
        Collector {
            state: self.state@,
            url: self.url@,
            previous: match self.previous {
                Some((at, values)) => Some((at, named(values@))),
                None => None,
            },
        }
    }
}

/// What the collector does next.
#[derive(Debug)]
pub enum Scrape {
    /// Wait for half a second and ask again.
    Rest,
    /// Read the metrics at this address.
    Read(String),
}

/// What the collector does next, as characters.
pub enum Errand {
    Rest,
    Read(Seq<char>),
}

impl View for Scrape {
    type V = Errand;

    open spec fn view(&self) -> Errand {
        match self {
            Scrape::Rest => Errand::Rest,
            Scrape::Read(url) => Errand::Read(url@),
        }
    }
}

/// Nothing is read while nobody is watching, and rates are not carried over
/// such a pause; without an address there is nothing to read.
pub open spec fn planned(c: Collector, demand: bool) -> (Collector, Errand) {
    if !demand {
        (Collector { previous: None, ..c }, Errand::Rest)
    } else if c.url.len() == 0 {
        (
            Collector {
                state: missing("pending"@, "kein lokaler LLM-Endpunkt gefunden"@),
                ..c
            },
            Errand::Rest,
        )
    } else {
        (c, Errand::Read(c.url))
    }
}

/// An address found by the discovery replaces the one in use and clears the
/// complaint.
pub open spec fn adopted(c: Collector, url: Seq<char>) -> Collector {
    if url.len() == 0 {
        c
    } else {
        Collector {
            url,
            state: Llm { reason: Seq::empty(), error: Seq::empty(), ..c.state },
            ..c
        }
    }
}

impl LlmCollector {
    pub fn start(url: &str) -> (r: Self)
        ensures
            r@ == (Collector {
                state: missing("pending"@, "noch nicht gelesen"@),
                url: url@,
                previous: None,
            }),
    {
        LlmCollector {
            state: LlmState::missing("pending", "noch nicht gelesen"),
            url: text::copy(url),
            previous: None,
        }
    }

    /// Decides what to do next.
    pub fn plan(&mut self, demand: bool) -> (r: Scrape)
        ensures
            (final(self)@, r@) == planned(old(self)@, demand),
    {
        if !demand {
            self.previous = None;
            return Scrape::Rest;
        }
        if text::is_empty(self.url.as_str()) {
            self.state = LlmState::missing("pending", "kein lokaler LLM-Endpunkt gefunden");
            return Scrape::Rest;
        }
        Scrape::Read(text::copy(self.url.as_str()))
    }

    /// The last reading, for rates.
    pub fn previous(&self) -> (r: Option<&Reading>)
        ensures
            match r {
                Some(p) => self@.previous == Some((p.0, named(p.1@))),
                None => self@.previous is None,
            },
    {
        match &self.previous {
            Some(p) => Some(p),
            None => None,
        }
    }

    /// The metrics were read: `values` at the time `now`, from which `state` was
    /// derived.
    pub fn receive(&mut self, now: u64, values: Vec<(String, u64)>, state: LlmState)
        ensures
            final(self)@ == (Collector {
                state: state@,
                previous: Some((now, named(values@))),
                ..old(self)@
            }),
    {
        self.state = state;
        self.previous = Some((now, values));
    }

    /// Nothing answered.
    pub fn miss(&mut self)
        ensures
            final(self)@ == (Collector {
                state: missing("no-endpoint"@, "kein lokaler vLLM-Endpunkt (headless Rank?)"@),
                previous: None,
                ..old(self)@
            }),
    {
        self.state = LlmState::missing(
            "no-endpoint",
            "kein lokaler vLLM-Endpunkt (headless Rank?)",
        );
        self.previous = None;
    }

    /// Takes over the address of the engine that the discovery prefers.
    pub fn adopt(&mut self, url: &str)
        ensures
            final(self)@ == adopted(old(self)@, url@),
    {
        if text::is_empty(url) {
            return ;
        }
        self.url = text::copy(url);
        let reason = String::new();
        let error = String::new();
        assert(reason@ =~= Seq::empty());
        assert(error@ =~= Seq::empty());
        self.state.reason = reason;
        self.state.error = error;
    }

    pub fn current_url(&self) -> (r: String)
        ensures
            r@ == self@.url,
    {
        text::copy(self.url.as_str())
    }

    pub fn sample(&self) -> (r: LlmState)
        ensures
            r@ == self@.state,
    {
        self.state.copy()
    }
}

/// Rates never span a pause in which nobody was watching.
pub proof fn pauses_forget_the_last_reading(c: Collector, demand: bool)
    ensures
        !demand ==> planned(c, demand).0.previous is None,
        demand ==> planned(c, demand).0.previous == c.previous,
        planned(c, demand).1 is Read <==> demand && c.url.len() > 0,
{
}

// ---------------------------------------------------------------- the pieces

/// What was measured of the GPUs.
#[derive(Debug)]
pub struct GpuState {
    pub available: bool,
    pub name: String,
    pub util_pct: u64,
    pub mem_util_pct: u64,
    pub temp_c: u64,
    pub power_w: u64,
    pub sm_mhz: u64,
    pub vram_used_mib: u64,
    pub vram_total_mib: u64,
    /// `nvidia`, `amd`, `intel` or empty when nothing was found.
    pub vendor: String,
}

/// The GPUs as characters.
#[verifier::ext_equal]
pub struct Gpu {
    pub available: bool,
    pub name: Seq<char>,
    pub util_pct: u64,
    pub mem_util_pct: u64,
    pub temp_c: u64,
    pub power_w: u64,
    pub sm_mhz: u64,
    pub vram_used_mib: u64,
    pub vram_total_mib: u64,
    pub vendor: Seq<char>,
}

impl View for GpuState {
    type V = Gpu;

    open spec fn view(&self) -> Gpu {
        Gpu {
            available: self.available,
            name: self.name@,
            util_pct: self.util_pct,
            mem_util_pct: self.mem_util_pct,
            temp_c: self.temp_c,
            power_w: self.power_w,
            sm_mhz: self.sm_mhz,
            vram_used_mib: self.vram_used_mib,
            vram_total_mib: self.vram_total_mib,
            vendor: self.vendor@,
        }
    }
}

/// What was measured of the node.
#[derive(Debug)]
pub struct NodeSample {
    pub cpu_pct: u64,
    pub cpu_count: u64,
    pub cpu_model: String,
    pub load1: u64,
    pub load5: u64,
    pub load15: u64,
    pub mem_total_gib: u64,
    pub mem_used_gib: u64,
    pub mem_avail_gib: u64,
    pub mem_pct: u64,
    pub swap_total_gib: u64,
    pub swap_used_gib: u64,
    pub uptime_s: u64,
}

/// The node as characters.
#[verifier::ext_equal]
pub struct Machine {
    pub cpu_pct: u64,
    pub cpu_count: u64,
    pub cpu_model: Seq<char>,
    pub load1: u64,
    pub load5: u64,
    pub load15: u64,
    pub mem_total_gib: u64,
    pub mem_used_gib: u64,
    pub mem_avail_gib: u64,
    pub mem_pct: u64,
    pub swap_total_gib: u64,
    pub swap_used_gib: u64,
    pub uptime_s: u64,
}

impl View for NodeSample {
    type V = Machine;

    open spec fn view(&self) -> Machine {
        Machine {
            cpu_pct: self.cpu_pct,
            cpu_count: self.cpu_count,
            cpu_model: self.cpu_model@,
            load1: self.load1,
            load5: self.load5,
            load15: self.load15,
            mem_total_gib: self.mem_total_gib,
            mem_used_gib: self.mem_used_gib,
            mem_avail_gib: self.mem_avail_gib,
            mem_pct: self.mem_pct,
            swap_total_gib: self.swap_total_gib,
            swap_used_gib: self.swap_used_gib,
            uptime_s: self.uptime_s,
        }
    }
}

// ---------------------------------------------------------------- documents

/// The GPUs as a document.
pub open spec fn gpu_doc(g: Gpu) -> Doc {
    Doc::Object(
        seq![
            ("available"@, Doc::Bool(g.available)),
            ("mem_util_pct"@, json::fraction(g.mem_util_pct)),
            ("name"@, Doc::Text(g.name)),
            ("power_w"@, json::fraction(g.power_w)),
            ("sm_mhz"@, json::fraction(g.sm_mhz)),
            ("temp_c"@, json::fraction(g.temp_c)),
            ("util_pct"@, json::fraction(g.util_pct)),
            ("vendor"@, Doc::Text(g.vendor)),
            ("vram_total_mib"@, json::fraction(g.vram_total_mib)),
            ("vram_used_mib"@, json::fraction(g.vram_used_mib)),
        ],
    )
}

/// The node as a document.
pub open spec fn node_doc(n: Machine) -> Doc {
    Doc::Object(
        seq![
            ("cpu_count"@, Doc::Number(Number::Natural(n.cpu_count))),
            ("cpu_model"@, Doc::Text(n.cpu_model)),
            ("cpu_pct"@, json::fraction(n.cpu_pct)),
            ("load1"@, json::fraction(n.load1)),
            ("load15"@, json::fraction(n.load15)),
            ("load5"@, json::fraction(n.load5)),
            ("mem_avail_gib"@, json::fraction(n.mem_avail_gib)),
            ("mem_pct"@, json::fraction(n.mem_pct)),
            ("mem_total_gib"@, json::fraction(n.mem_total_gib)),
            ("mem_used_gib"@, json::fraction(n.mem_used_gib)),
            ("swap_total_gib"@, json::fraction(n.swap_total_gib)),
            ("swap_used_gib"@, json::fraction(n.swap_used_gib)),
            ("uptime_s"@, json::fraction(n.uptime_s)),
        ],
    )
}

/// A server as a document. Only the first one can be the primary one, and only
/// where it has metrics.
pub open spec fn engine_doc(e: Server, index: int) -> Doc {
    Doc::Object(
        seq![
            ("endpoint"@, Doc::Text(e.endpoint)),
            ("kind"@, Doc::Text(e.kind)),
            ("loaded"@, json::text_array(e.loaded)),
            ("metrics"@, Doc::Text(e.metrics)),
            ("model_count"@, Doc::Number(Number::Natural(e.models.len() as u64))),
            ("models"@, json::text_array(e.models)),
            ("port"@, Doc::Number(Number::Natural(e.port as u64))),
            ("primary"@, Doc::Bool(index == 0 && e.metrics.len() > 0)),
        ],
    )
}

pub open spec fn engine_docs(list: Seq<Server>) -> Seq<Doc> {
    Seq::new(list.len(), |i: int| engine_doc(list[i], i))
}

/// The discovery as a document.
pub open spec fn llm_doc(discover: bool, url: Seq<char>, list: Seq<Server>) -> Doc {
    Doc::Object(
        seq![
            ("autodiscover"@, Doc::Bool(discover)),
            ("endpoint"@, Doc::Text(url)),
            ("engines"@, Doc::Array(engine_docs(list))),
        ],
    )
}

/// One client address as a document.
pub open spec fn connection_doc(row: (Seq<char>, u32)) -> Doc {
    Doc::Object(
        seq![
            ("count"@, Doc::Number(Number::Natural(row.1 as u64))),
            ("ip"@, Doc::Text(row.0)),
        ],
    )
}

/// The port whose clients are counted: that of the first server with one.
pub open spec fn served_port(list: Seq<Server>) -> Option<u16>
    decreases list.len(),
{
    if list.len() == 0 {
        None
    } else if list[0].port > 0 {
        Some(list[0].port)
    } else {
        served_port(list.drop_first())
    }
}

/// The clients as a document.
pub open spec fn clients_doc(port: Option<u16>, rows: Seq<(Seq<char>, u32)>) -> Doc {
    Doc::Object(
        seq![
            (
                "connections"@,
                Doc::Array(
                    if port is Some {
                        rows.map_values(|r: (Seq<char>, u32)| connection_doc(r))
                    } else {
                        Seq::empty()
                    },
                ),
            ),
            (
                "port"@,
                match port {
                    Some(p) => Doc::Number(Number::Natural(p as u64)),
                    None => Doc::Null,
                },
            ),
        ],
    )
}

/// Why there are no engine values, as a document.
pub open spec fn missing_doc(reason: Seq<char>, error: Seq<char>) -> Doc {
    Doc::Object(
        seq![
            ("available"@, Doc::Bool(false)),
            ("error"@, Doc::Text(error)),
            ("reason"@, Doc::Text(reason)),
        ],
    )
}

/// The engine values as a document.
pub open spec fn values_doc(s: Llm) -> Doc {
    Doc::Object(
        seq![
            ("available"@, Doc::Bool(true)),
            ("error"@, Doc::Null),
            ("gen_tok_s"@, json::fraction(s.gen_tok_s)),
            ("gen_tokens_total"@, json::fraction(s.gen_tokens_total)),
            ("kv_cache_pct"@, json::fraction(s.kv_cache_pct)),
            ("model"@, Doc::Text(s.model)),
            ("preemptions_total"@, Doc::Number(Number::Natural(s.preemptions_total))),
            ("prompt_tok_s"@, json::fraction(s.prompt_tok_s)),
            ("prompt_tokens_total"@, json::fraction(s.prompt_tokens_total)),
            ("reason"@, Doc::Text(Seq::empty())),
            ("running"@, Doc::Number(Number::Natural(s.running))),
            (
                "spec_accept_pct"@,
                match s.spec_accept_pct {
                    Some(bits) => json::fraction(bits),
                    None => Doc::Null,
                },
            ),
            ("ttft_ms"@, json::fraction(s.ttft_ms)),
            ("waiting"@, Doc::Number(Number::Natural(s.waiting))),
        ],
    )
}

/// What the document says of the engine: nothing is expected of it where both
/// the metrics and the discovery are switched off.
pub open spec fn engine_block(s: Llm, enabled: bool) -> Doc {
    if !enabled {
        missing_doc("disabled"@, "LLM-Monitoring auf diesem Knoten deaktiviert"@)
    } else if s.available {
        values_doc(s)
    } else {
        missing_doc(s.reason, s.error)
    }
}

/// Everything that goes into the pushed document.
#[derive(Debug)]
pub struct Parts {
    pub version: String,
    pub host: String,
    pub ts: u64,
    pub node: NodeSample,
    pub gpu: GpuState,
    /// Whether metrics are read at all.
    pub enabled: bool,
    pub discover: bool,
    pub url: String,
    pub engines: Vec<Engine>,
    pub llm: LlmState,
    /// The client addresses of the served port.
    pub clients: Vec<(String, u32)>,
}

/// The parts as characters.
pub struct Whole {
    pub version: Seq<char>,
    pub host: Seq<char>,
    pub ts: u64,
    pub node: Machine,
    pub gpu: Gpu,
    pub enabled: bool,
    pub discover: bool,
    pub url: Seq<char>,
    pub engines: Seq<Server>,
    pub llm: Llm,
    pub clients: Seq<(Seq<char>, u32)>,
}

impl View for Parts {
    type V = Whole;

    open spec fn view(&self) -> Whole {
        Whole {
            version: self.version@,
            host: self.host@,
            ts: self.ts,
            node: self.node@,
            gpu: self.gpu@,
            enabled: self.enabled,
            discover: self.discover,
            url: self.url@,
            engines: engines::servers(self.engines@),
            llm: self.llm@,
            clients: sockets::rows_of(self.clients@),
        }
    }
}

/// The pushed document.
pub open spec fn snapshot_doc(w: Whole) -> Doc {
    Doc::Object(
        seq![
            ("agent"@, Doc::Text("megatron-sysmon"@)),
            ("clients"@, clients_doc(served_port(w.engines), w.clients)),
            ("gpu"@, gpu_doc(w.gpu)),
            ("host"@, Doc::Text(w.host)),
            ("llm"@, llm_doc(w.discover, w.url, w.engines)),
            ("node"@, node_doc(w.node)),
            ("ts"@, json::fraction(w.ts)),
            ("uptime_s"@, json::fraction(w.node.uptime_s)),
            ("version"@, Doc::Text(w.version)),
            ("vllm"@, engine_block(w.llm, w.enabled)),
        ],
    )
}

// ---------------------------------------------------------------- building it

fn gpu_value(g: &GpuState) -> (r: Json)
    ensures
        r@ == gpu_doc(g@),
{
    let m = json::no_members();
    let m = json::with(m, "available", Json::Bool(g.available));
    let m = json::with(m, "mem_util_pct", json::from_bits(g.mem_util_pct));
    let m = json::with(m, "name", json::words(g.name.as_str()));
    let m = json::with(m, "power_w", json::from_bits(g.power_w));
    let m = json::with(m, "sm_mhz", json::from_bits(g.sm_mhz));
    let m = json::with(m, "temp_c", json::from_bits(g.temp_c));
    let m = json::with(m, "util_pct", json::from_bits(g.util_pct));
    let m = json::with(m, "vendor", json::words(g.vendor.as_str()));
    let m = json::with(m, "vram_total_mib", json::from_bits(g.vram_total_mib));
    let m = json::with(m, "vram_used_mib", json::from_bits(g.vram_used_mib));
    let r = json::object(m);
    assert(r@->Object_0 =~= gpu_doc(g@)->Object_0);
    r
}

fn node_value(n: &NodeSample) -> (r: Json)
    ensures
        r@ == node_doc(n@),
{
    let m = json::no_members();
    let m = json::with(m, "cpu_count", Json::Number(Number::Natural(n.cpu_count)));
    let m = json::with(m, "cpu_model", json::words(n.cpu_model.as_str()));
    let m = json::with(m, "cpu_pct", json::from_bits(n.cpu_pct));
    let m = json::with(m, "load1", json::from_bits(n.load1));
    let m = json::with(m, "load15", json::from_bits(n.load15));
    let m = json::with(m, "load5", json::from_bits(n.load5));
    let m = json::with(m, "mem_avail_gib", json::from_bits(n.mem_avail_gib));
    let m = json::with(m, "mem_pct", json::from_bits(n.mem_pct));
    let m = json::with(m, "mem_total_gib", json::from_bits(n.mem_total_gib));
    let m = json::with(m, "mem_used_gib", json::from_bits(n.mem_used_gib));
    let m = json::with(m, "swap_total_gib", json::from_bits(n.swap_total_gib));
    let m = json::with(m, "swap_used_gib", json::from_bits(n.swap_used_gib));
    let m = json::with(m, "uptime_s", json::from_bits(n.uptime_s));
    let r = json::object(m);
    assert(r@->Object_0 =~= node_doc(n@)->Object_0);
    r
}

fn engine_value(e: &Engine, index: usize) -> (r: Json)
    ensures
        r@ == engine_doc(e@, index as int),
{
    assert(text::views(e.models@).len() == e.models@.len());
    let m = json::no_members();
    let m = json::with(m, "endpoint", json::words(e.endpoint.as_str()));
    let m = json::with(m, "kind", json::words(e.kind.as_str()));
    let m = json::with(m, "loaded", json::array_of_texts(&e.loaded));
    let m = json::with(m, "metrics", json::words(e.metrics.as_str()));
    let m = json::with(m, "model_count", Json::Number(Number::Natural(e.models.len() as u64)));
    let m = json::with(m, "models", json::array_of_texts(&e.models));
    let m = json::with(m, "port", Json::Number(Number::Natural(e.port as u64)));
    let m = json::with(
        m,
        "primary",
        Json::Bool(index == 0 && !text::is_empty(e.metrics.as_str())),
    );
    let r = json::object(m);
    assert(r@->Object_0 =~= engine_doc(e@, index as int)->Object_0);
    r
}

fn llm_value(discover: bool, url: &str, list: &Vec<Engine>) -> (r: Json)
    ensures
        r@ == llm_doc(discover, url@, engines::servers(list@)),
{
    let ghost all = engine_docs(engines::servers(list@));
    let mut items: Vec<Json> = Vec::new();
    let mut i: usize = 0;
    while i < list.len()
        invariant
            i <= list@.len(),
            all == engine_docs(engines::servers(list@)),
            json::docs(items@) == all.take(i as int),
        decreases list@.len() - i,
    {
        let ghost before = items@;
        items.push(engine_value(&list[i], i));
        assert(engines::servers(list@)[i as int] == list@[i as int]@);
        assert(json::docs(items@) =~= json::docs(before).push(all[i as int]));
        assert(json::docs(items@) =~= all.take(i + 1));
        i += 1;
    }
    assert(json::docs(items@) =~= all);
    let m = json::no_members();
    let m = json::with(m, "autodiscover", Json::Bool(discover));
    let m = json::with(m, "endpoint", json::words(url));
    let m = json::with(m, "engines", json::array(items));
    let r = json::object(m);
    assert(r@->Object_0 =~= llm_doc(discover, url@, engines::servers(list@))->Object_0);
    r
}

/// The port whose clients are counted.
pub fn client_port(list: &Vec<Engine>) -> (r: Option<u16>)
    ensures
        r == served_port(engines::servers(list@)),
{
    let ghost all = engines::servers(list@);
    let mut i: usize = 0;
    assert(all.skip(0) =~= all);
    while i < list.len()
        invariant
            i <= list@.len(),
            all == engines::servers(list@),
            served_port(all) == served_port(all.skip(i as int)),
        decreases list@.len() - i,
    {
        assert(all.skip(i as int)[0] == list@[i as int]@);
        assert(all.skip(i as int).drop_first() =~= all.skip(i + 1));
        if list[i].port > 0 {
            return Some(list[i].port);
        }
        i += 1;
    }
    None
}

fn clients_value(port: Option<u16>, rows: &Vec<(String, u32)>) -> (r: Json)
    ensures
        r@ == clients_doc(port, sockets::rows_of(rows@)),
{
    let ghost all = sockets::rows_of(rows@).map_values(
        |r: (Seq<char>, u32)| connection_doc(r),
    );
    let mut items: Vec<Json> = Vec::new();
    assert(json::docs(items@) =~= Seq::empty());
    if port.is_some() {
        let mut i: usize = 0;
        while i < rows.len()
            invariant
                i <= rows@.len(),
                all == sockets::rows_of(rows@).map_values(
                    |r: (Seq<char>, u32)| connection_doc(r),
                ),
                json::docs(items@) == all.take(i as int),
            decreases rows@.len() - i,
        {
            let ghost before = items@;
            let m = json::no_members();
            let m = json::with(m, "count", Json::Number(Number::Natural(rows[i].1 as u64)));
            let m = json::with(m, "ip", json::words(rows[i].0.as_str()));
            let item = json::object(m);
            assert(sockets::rows_of(rows@)[i as int] == (rows@[i as int].0@, rows@[i as int].1));
            assert(item@->Object_0 =~= all[i as int]->Object_0);
            items.push(item);
            assert(json::docs(items@) =~= json::docs(before).push(all[i as int]));
            assert(json::docs(items@) =~= all.take(i + 1));
            i += 1;
        }
        assert(json::docs(items@) =~= all);
    }
    let m = json::no_members();
    let m = json::with(m, "connections", json::array(items));
    let value = match port {
        Some(p) => Json::Number(Number::Natural(p as u64)),
        None => Json::Null,
    };
    let m = json::with(m, "port", value);
    let r = json::object(m);
    assert(r@->Object_0 =~= clients_doc(port, sockets::rows_of(rows@))->Object_0);
    r
}

fn missing_value(reason: &str, error: &str) -> (r: Json)
    ensures
        r@ == missing_doc(reason@, error@),
{
    let m = json::no_members();
    let m = json::with(m, "available", Json::Bool(false));
    let m = json::with(m, "error", json::words(error));
    let m = json::with(m, "reason", json::words(reason));
    let r = json::object(m);
    assert(r@->Object_0 =~= missing_doc(reason@, error@)->Object_0);
    r
}

fn values_value(s: &LlmState) -> (r: Json)
    ensures
        r@ == values_doc(s@),
{
    let nothing = String::new();
    assert(nothing@ =~= Seq::empty());
    let accepted = match s.spec_accept_pct {
        Some(bits) => json::from_bits(bits),
        None => Json::Null,
    };
    let m = json::no_members();
    let m = json::with(m, "available", Json::Bool(true));
    let m = json::with(m, "error", Json::Null);
    let m = json::with(m, "gen_tok_s", json::from_bits(s.gen_tok_s));
    let m = json::with(m, "gen_tokens_total", json::from_bits(s.gen_tokens_total));
    let m = json::with(m, "kv_cache_pct", json::from_bits(s.kv_cache_pct));
    let m = json::with(m, "model", json::words(s.model.as_str()));
    let m = json::with(
        m,
        "preemptions_total",
        Json::Number(Number::Natural(s.preemptions_total)),
    );
    let m = json::with(m, "prompt_tok_s", json::from_bits(s.prompt_tok_s));
    let m = json::with(m, "prompt_tokens_total", json::from_bits(s.prompt_tokens_total));
    let m = json::with(m, "reason", json::words(nothing.as_str()));
    let m = json::with(m, "running", Json::Number(Number::Natural(s.running)));
    let m = json::with(m, "spec_accept_pct", accepted);
    let m = json::with(m, "ttft_ms", json::from_bits(s.ttft_ms));
    let m = json::with(m, "waiting", Json::Number(Number::Natural(s.waiting)));
    let r = json::object(m);
    assert(r@->Object_0 =~= values_doc(s@)->Object_0);
    r
}

fn engine_block_value(s: &LlmState, enabled: bool) -> (r: Json)
    ensures
        r@ == engine_block(s@, enabled),
{
    if !enabled {
        missing_value("disabled", "LLM-Monitoring auf diesem Knoten deaktiviert")
    } else if s.available {
        values_value(s)
    } else {
        missing_value(s.reason.as_str(), s.error.as_str())
    }
}

/// Builds the document that is pushed to every client.
pub fn build_snapshot(parts: &Parts) -> (r: Json)
    ensures
        r@ == snapshot_doc(parts@),
{
    let port = client_port(&parts.engines);
    let m = json::no_members();
    let m = json::with(m, "agent", json::words("megatron-sysmon"));
    let m = json::with(m, "clients", clients_value(port, &parts.clients));
    let m = json::with(m, "gpu", gpu_value(&parts.gpu));
    let m = json::with(m, "host", json::words(parts.host.as_str()));
    let m = json::with(
        m,
        "llm",
        llm_value(parts.discover, parts.url.as_str(), &parts.engines),
    );
    let m = json::with(m, "node", node_value(&parts.node));
    let m = json::with(m, "ts", json::from_bits(parts.ts));
    let m = json::with(m, "uptime_s", json::from_bits(parts.node.uptime_s));
    let m = json::with(m, "version", json::words(parts.version.as_str()));
    let m = json::with(m, "vllm", engine_block_value(&parts.llm, parts.enabled));
    let r = json::object(m);
    assert(r@->Object_0 =~= snapshot_doc(parts@)->Object_0);
    r
}

/// The primary server is the first one, where it has metrics, and no other.
pub proof fn only_the_first_is_primary(e: Server, index: int)
    ensures
        json::member(engine_doc(e, index), "primary"@) == Some(
            Doc::Bool(index == 0 && e.metrics.len() > 0),
        ),
        json::member(engine_doc(e, index), "port"@) == Some(
            Doc::Number(Number::Natural(e.port as u64)),
        ),
        json::member(engine_doc(e, index), "kind"@) == Some(Doc::Text(e.kind)),
        json::member(engine_doc(e, index), "endpoint"@) == Some(Doc::Text(e.endpoint)),
        json::member(engine_doc(e, index), "metrics"@) == Some(Doc::Text(e.metrics)),
        json::member(engine_doc(e, index), "models"@) == Some(json::text_array(e.models)),
        json::member(engine_doc(e, index), "loaded"@) == Some(json::text_array(e.loaded)),
{
    reveal_strlit("endpoint");
    reveal_strlit("kind");
    reveal_strlit("loaded");
    reveal_strlit("metrics");
    reveal_strlit("model_count");
    reveal_strlit("models");
    reveal_strlit("port");
    reveal_strlit("primary");
    assert("endpoint"@.len() == 8 && "kind"@.len() == 4 && "loaded"@.len() == 6
        && "metrics"@.len() == 7 && "model_count"@.len() == 11 && "models"@.len() == 6
        && "port"@.len() == 4 && "primary"@.len() == 7);
    assert("kind"@[0] == 'k' && "port"@[0] == 'p');
    assert("loaded"@[0] == 'l' && "models"@[0] == 'm');
    assert("metrics"@[0] == 'm' && "primary"@[0] == 'p');
    reveal_with_fuel(json::lookup, 9);
    let m = engine_doc(e, index)->Object_0;
    let b = m.drop_first();
    let c = b.drop_first();
    let d = c.drop_first();
    let f = d.drop_first();
    let g = f.drop_first();
    let h = g.drop_first();
    let k = h.drop_first();
    assert(b[0] == m[1] && c[0] == m[2] && d[0] == m[3] && f[0] == m[4] && g[0] == m[5] && h[0]
        == m[6] && k[0] == m[7]);
}

/// The clients that are counted are those of the first server with a port.
pub proof fn the_first_port_is_served(list: Seq<Server>, k: int)
    requires
        0 <= k < list.len(),
        list[k].port > 0,
        forall|j: int| 0 <= j < k ==> (#[trigger] list[j]).port == 0,
    ensures
        served_port(list) == Some(list[k].port),
    decreases k,
{
    if k > 0 {
        let rest = list.drop_first();
        assert(list[0].port == 0);
        assert forall|j: int| 0 <= j < k - 1 implies (#[trigger] rest[j]).port == 0 by {
            assert(rest[j] == list[j + 1]);
        }
        the_first_port_is_served(rest, k - 1);
    }
}

/// Nothing is read without demand or without an address; with both, the metrics
/// at the address are.
pub proof fn metrics_are_read_on_demand(c: Collector)
    ensures
        planned(c, false) == ((Collector { previous: None, ..c }), Errand::Rest),
        c.url.len() > 0 ==> planned(c, true) == (c, Errand::Read(c.url)),
        c.url.len() == 0 ==> {
            let (after, errand) = planned(c, true);
            &&& errand == Errand::Rest
            &&& !after.state.available
            &&& after.state.reason == "pending"@
            &&& after.state.error == "kein lokaler LLM-Endpunkt gefunden"@
            &&& after.url == c.url
            &&& after.previous == c.previous
        },
{
}

/// A found address replaces the one in use; none leaves everything as it is.
pub proof fn found_addresses_are_adopted(c: Collector, url: Seq<char>)
    ensures
        url.len() == 0 ==> adopted(c, url) == c,
        url.len() > 0 ==> adopted(c, url).url == url && adopted(c, url).state.reason.len() == 0
            && adopted(c, url).state.error.len() == 0 && adopted(c, url).previous == c.previous,
{
}

} // verus!
