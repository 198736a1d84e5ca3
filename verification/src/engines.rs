//! LLM servers on the node: how they are found on their ports, how a model is
//! loaded, and what their metrics say.
use crate::commands;
use crate::http;
use crate::json;
use crate::json::{Doc, Json};
use crate::text;
use vstd::prelude::*;

verus! {

/// One LLM server that the agent found.
#[derive(Debug)]
pub struct Engine {
    pub port: u16,
    /// `vllm`, `openai` or `ollama`.
    pub kind: String,
    pub endpoint: String,
    /// Where its metrics are read; empty where it has none.
    pub metrics: String,
    /// All models the endpoint offers.
    pub models: Vec<String>,
    /// Models currently loaded into memory (Ollama: `/api/ps`).
    pub loaded: Vec<String>,
}

/// A server as characters.
#[verifier::ext_equal]
pub struct Server {
    pub port: u16,
    pub kind: Seq<char>,
    pub endpoint: Seq<char>,
    pub metrics: Seq<char>,
    pub models: Seq<Seq<char>>,
    pub loaded: Seq<Seq<char>>,
}

impl View for Engine {
    type V = Server;

    open spec fn view(&self) -> Server {
        Server {
            port: self.port,
            kind: self.kind@,
            endpoint: self.endpoint@,
            metrics: self.metrics@,
            models: text::views(self.models@),
            loaded: text::views(self.loaded@),
        }
    }
}

pub open spec fn servers(list: Seq<Engine>) -> Seq<Server> {
    list.map_values(|e: Engine| e@)
}

// ---------------------------------------------------------------- listings

/// The texts under a key in a list of objects.
pub open spec fn field_texts(items: Seq<Doc>, key: Seq<char>) -> Seq<Seq<char>>
    decreases items.len(),
{
    if items.len() == 0 {
        Seq::empty()
    } else {
        let rest = field_texts(items.drop_last(), key);
        match json::text_of(json::member(items.last(), key)) {
            Some(s) => rest.push(s),
            None => rest,
        }
    }
}

/// The names in a listing: the texts under `key` of the items under `list`.
pub open spec fn listing(doc: Doc, list: Seq<char>, key: Seq<char>) -> Seq<Seq<char>> {
    match json::items_of(json::member(doc, list)) {
        Some(items) => field_texts(items, key),
        None => Seq::empty(),
    }
}

fn collect_field(items: &Vec<Json>, key: &str) -> (r: Vec<String>)
    ensures
        text::views(r@) == field_texts(json::docs(items@), key@),
{
    let ghost all = json::docs(items@);
    let mut out: Vec<String> = Vec::new();
    let mut i: usize = 0;
    assert(all.take(0) =~= Seq::empty());
    assert(text::views(out@) =~= Seq::empty());
    while i < items.len()
        invariant
            i <= items@.len(),
            all == json::docs(items@),
            text::views(out@) == field_texts(all.take(i as int), key@),
        decreases items@.len() - i,
    {
        let ghost before = out@;
        assert(all.take(i + 1).drop_last() =~= all.take(i as int));
        assert(all.take(i + 1).last() == items@[i as int]@);
        if let Some(s) = json::as_text(items[i].get(key)) {
            out.push(text::copy(s.as_str()));
            assert(text::views(out@) =~= text::views(before).push(s@));
        }
        i += 1;
    }
    assert(all.take(all.len() as int) =~= all);
    out
}

fn no_texts() -> (r: Vec<String>)
    ensures
        text::views(r@) == Seq::<Seq<char>>::empty(),
{
    let r: Vec<String> = Vec::new();
    assert(text::views(r@) =~= Seq::<Seq<char>>::empty());
    r
}

/// Reads the names in a listing.
pub fn read_listing(value: &Json, list: &str, key: &str) -> (r: Vec<String>)
    ensures
        text::views(r@) == listing(value@, list@, key@),
{
    match json::as_array(value.get(list)) {
        Some(items) => collect_field(items, key),
        None => no_texts(),
    }
}

/// The names in an optional listing of Ollama.
pub open spec fn ollama_names(doc: Option<Doc>) -> Seq<Seq<char>> {
    match doc {
        Some(d) => listing(d, "models"@, "name"@),
        None => Seq::empty(),
    }
}

/// The models Ollama has in memory, from its answer to `/api/ps`.
pub fn loaded_models(answer: Option<&Json>) -> (r: Vec<String>)
    ensures
        text::views(r@) == ollama_names(json::doc_of(answer)),
{
    match answer {
        Some(value) => read_listing(value, "models", "name"),
        None => no_texts(),
    }
}

// ---------------------------------------------------------------- probing a port

/// What is asked of a port next.
#[derive(Debug)]
pub enum ProbeAction {
    /// Get this document, as JSON, within so many seconds.
    Document { url: String, seconds: u64 },
    /// Get this page as text, within so many seconds and so many bytes.
    Page { url: String, seconds: u64, limit: usize },
    /// The port is answered for.
    Found(Engine),
    /// Nothing answers on the port.
    Nothing,
}

/// An action as characters.
#[verifier::ext_equal]
pub enum Ask {
    Document { url: Seq<char>, seconds: u64 },
    Page { url: Seq<char>, seconds: u64, limit: usize },
    Found(Server),
    Nothing,
}

impl View for ProbeAction {
    type V = Ask;

    open spec fn view(&self) -> Ask {
        match self {
            ProbeAction::Document { url, seconds } => Ask::Document {
                url: url@,
                seconds: *seconds,
            },
            ProbeAction::Page { url, seconds, limit } => Ask::Page {
                url: url@,
                seconds: *seconds,
                limit: *limit,
            },
            ProbeAction::Found(engine) => Ask::Found(engine@),
            ProbeAction::Nothing => Ask::Nothing,
        }
    }
}

/// What came back.
#[derive(Debug)]
pub enum Page {
    Document(Option<Json>),
    Text(Option<String>),
}

/// The question whose answer is awaited.
#[derive(Debug, Clone, Copy, PartialEq, Eq, Structural)]
pub enum Stage {
    Tags,
    Loaded,
    Models,
    Metrics,
    TagsAgain,
    Over,
}

/// The probe of one open port.
#[derive(Debug)]
pub struct Probe {
    port: u16,
    stage: Stage,
    models: Vec<String>,
}

/// A probe as characters.
#[verifier::ext_equal]
pub struct Inquiry {
    pub port: u16,
    pub stage: Stage,
    pub models: Seq<Seq<char>>,
}

impl View for Probe {
    type V = Inquiry;

    closed spec fn view(&self) -> Inquiry {
        Inquiry { port: self.port, stage: self.stage, models: text::views(self.models@) }
    }
}

/// The address of a local port.
pub open spec fn endpoint_of(port: u16) -> Seq<char> {
    "http://127.0.0.1:"@ + text::decimal(port as nat)
}

/// The document that an answer holds.
pub open spec fn document_in(page: Page) -> Option<Doc> {
    match page {
        Page::Document(Some(j)) => Some(j@),
        _ => None,
    }
}

/// The text that an answer holds.
pub open spec fn page_in(page: Page) -> Option<Seq<char>> {
    match page {
        Page::Text(Some(t)) => Some(t@),
        _ => None,
    }
}

/// An Ollama server.
pub open spec fn ollama(port: u16, models: Seq<Seq<char>>, loaded: Seq<Seq<char>>) -> Server {
    Server {
        port,
        kind: "ollama"@,
        endpoint: endpoint_of(port),
        metrics: Seq::empty(),
        models,
        loaded,
    }
}

/// A server with the OpenAI interface; one whose metrics name vLLM is vLLM.
pub open spec fn openai(port: u16, models: Seq<Seq<char>>, metrics: Option<Seq<char>>) -> Server {
    let vllm = metrics matches Some(t) && text::occurs(t, "vllm:"@);
    Server {
        port,
        kind: if vllm {
            "vllm"@
        } else {
            "openai"@
        },
        endpoint: endpoint_of(port),
        metrics: if vllm {
            endpoint_of(port) + "/metrics"@
        } else {
            Seq::empty()
        },
        models,
        loaded: models,
    }
}

/// The first question: does Ollama answer? It has an OpenAI listing as well and
/// must not be mistaken for another server.
pub open spec fn opening(port: u16) -> (Inquiry, Ask) {
    (
        Inquiry { port, stage: Stage::Tags, models: Seq::empty() },
        Ask::Document { url: endpoint_of(port) + "/api/tags"@, seconds: 1 },
    )
}

/// The next question, or the answer.
pub open spec fn asked(probe: Inquiry, page: Page) -> (Inquiry, Ask) {
    let port = probe.port;
    let over = Inquiry { stage: Stage::Over, ..probe };
    match probe.stage {
        Stage::Tags => {
            let tags = document_in(page);
            if tags is Some && json::items_of(json::member(tags->0, "models"@)) is Some {
                (
                    Inquiry {
                        stage: Stage::Loaded,
                        models: listing(tags->0, "models"@, "name"@),
                        ..probe
                    },
                    Ask::Document { url: endpoint_of(port) + "/api/ps"@, seconds: 2 },
                )
            } else {
                (
                    Inquiry { stage: Stage::Models, ..probe },
                    Ask::Document { url: endpoint_of(port) + "/v1/models"@, seconds: 2 },
                )
            }
        },
        Stage::Loaded => (
            over,
            Ask::Found(ollama(port, probe.models, ollama_names(document_in(page)))),
        ),
        Stage::Models => match document_in(page) {
            Some(doc) => (
                Inquiry {
                    stage: Stage::Metrics,
                    models: listing(doc, "data"@, "id"@),
                    ..probe
                },
                Ask::Page { url: endpoint_of(port) + "/metrics"@, seconds: 2, limit: 65536 },
            ),
            None => (
                Inquiry { stage: Stage::TagsAgain, ..probe },
                Ask::Document { url: endpoint_of(port) + "/api/tags"@, seconds: 2 },
            ),
        },
        Stage::Metrics => (over, Ask::Found(openai(port, probe.models, page_in(page)))),
        Stage::TagsAgain => match document_in(page) {
            Some(doc) => (
                Inquiry {
                    stage: Stage::Loaded,
                    models: listing(doc, "models"@, "name"@),
                    ..probe
                },
                Ask::Document { url: endpoint_of(port) + "/api/ps"@, seconds: 2 },
            ),
            None => (over, Ask::Nothing),
        },
        Stage::Over => (probe, Ask::Nothing),
    }
}

fn endpoint(port: u16) -> (r: String)
    ensures
        r@ == endpoint_of(port),
{
    let number = text::from_u64(port as u64);
    text::cat2("http://127.0.0.1:", number.as_str())
}

fn address(port: u16, path: &str) -> (r: String)
    ensures
        r@ == endpoint_of(port) + path@,
{
    let base = endpoint(port);
    text::cat2(base.as_str(), path)
}

fn nothing() -> (r: String)
    ensures
        r@ == Seq::<char>::empty(),
{
    let r = String::new();
    assert(r@ =~= Seq::<char>::empty());
    r
}

fn document_of(page: &Page) -> (r: Option<&Json>)
    ensures
        json::doc_of(r) == document_in(*page),
{
    match page {
        Page::Document(Some(value)) => Some(value),
        _ => None,
    }
}

impl Probe {
    /// Begins the probe of an open port.
    pub fn start(port: u16) -> (r: (Probe, ProbeAction))
        ensures
            (r.0@, r.1@) == opening(port),
    {
        let probe = Probe { port, stage: Stage::Tags, models: no_texts() };
        let action = ProbeAction::Document { url: address(port, "/api/tags"), seconds: 1 };
        (probe, action)
    }

    /// Takes an answer and says what to ask next.
    pub fn advance(&mut self, page: &Page) -> (r: ProbeAction)
        ensures
            (final(self)@, r@) == asked(old(self)@, *page),
    {
        let port: u16 = self.port;
        match self.stage {
            Stage::Tags => {
                if let Some(tags) = document_of(page) {
                    if json::as_array(tags.get("models")).is_some() {
                        self.models = read_listing(tags, "models", "name");
                        self.stage = Stage::Loaded;
                        return ProbeAction::Document {
                            url: address(port, "/api/ps"),
                            seconds: 2,
                        };
                    }
                }
                self.stage = Stage::Models;
                ProbeAction::Document { url: address(port, "/v1/models"), seconds: 2 }
            },
            Stage::Loaded => {
                self.stage = Stage::Over;
                ProbeAction::Found(
                    Engine {
                        port,
                        kind: text::copy("ollama"),
                        endpoint: endpoint(port),
                        metrics: nothing(),
                        models: text::copy_list(&self.models),
                        loaded: loaded_models(document_of(page)),
                    },
                )
            },
            Stage::Models => {
                match document_of(page) {
                    Some(value) => {
                        self.models = read_listing(value, "data", "id");
                        self.stage = Stage::Metrics;
                        ProbeAction::Page {
                            url: address(port, "/metrics"),
                            seconds: 2,
                            limit: 65536,
                        }
                    },
                    None => {
                        self.stage = Stage::TagsAgain;
                        ProbeAction::Document { url: address(port, "/api/tags"), seconds: 2 }
                    },
                }
            },
            Stage::Metrics => {
                self.stage = Stage::Over;
                let vllm = match page {
                    Page::Text(Some(t)) => text::contains(t.as_str(), "vllm:"),
                    _ => false,
                };
                ProbeAction::Found(
                    Engine {
                        port,
                        kind: if vllm {
                            text::copy("vllm")
                        } else {
                            text::copy("openai")
                        },
                        endpoint: endpoint(port),
                        metrics: if vllm {
                            address(port, "/metrics")
                        } else {
                            nothing()
                        },
                        models: text::copy_list(&self.models),
                        loaded: text::copy_list(&self.models),
                    },
                )
            },
            Stage::TagsAgain => {
                match document_of(page) {
                    Some(value) => {
                        self.models = read_listing(value, "models", "name");
                        self.stage = Stage::Loaded;
                        ProbeAction::Document { url: address(port, "/api/ps"), seconds: 2 }
                    },
                    None => {
                        self.stage = Stage::Over;
                        ProbeAction::Nothing
                    },
                }
            },
            Stage::Over => ProbeAction::Nothing,
        }
    }
}

/// How many answers a probe still waits for at most.
pub open spec fn remaining(stage: Stage) -> nat {
    match stage {
        Stage::Tags => 4,
        Stage::Models => 3,
        Stage::TagsAgain => 2,
        Stage::Loaded => 1,
        Stage::Metrics => 1,
        Stage::Over => 0,
    }
}

/// A probe comes to an end: every answer brings it closer to being over, and
/// it is over exactly when it has found a server or nothing.
pub proof fn probes_end(probe: Inquiry, page: Page)
    requires
        probe.stage != Stage::Over,
    ensures
        remaining(asked(probe, page).0.stage) < remaining(probe.stage),
        asked(probe, page).0.stage == Stage::Over <==> asked(probe, page).1 is Found || asked(
            probe,
            page,
        ).1 is Nothing,
{
}

/// An Ollama server is never listed as another kind: once its own listing has
/// answered, that is what is found.
pub proof fn ollama_is_recognised(port: u16, tags: Page, loaded: Page)
    requires
        document_in(tags) matches Some(doc) && json::items_of(json::member(doc, "models"@)) is Some,
    ensures
        asked(asked(opening(port).0, tags).0, loaded).1 == Ask::Found(
            ollama(
                port,
                ollama_names(document_in(tags)),
                ollama_names(document_in(loaded)),
            ),
        ),
{
}

// ---------------------------------------------------------------- discovery

/// The ports on which LLM servers usually listen.
pub open spec fn usual_ports() -> Seq<u16> {
    seq![8000u16, 8001, 8002, 8080, 8081, 9000, 30000, 11434]
}

pub fn llm_ports() -> (r: Vec<u16>)
    ensures
        r@ == usual_ports(),
{
    let mut out: Vec<u16> = Vec::new();
    out.push(8000);
    out.push(8001);
    out.push(8002);
    out.push(8080);
    out.push(8081);
    out.push(9000);
    out.push(30000);
    out.push(11434);
    assert(out@ =~= usual_ports());
    out
}

/// The server behind the configured metrics address.
pub open spec fn fallback(url: Seq<char>, port: u16) -> Server {
    Server {
        port,
        kind: "vllm"@,
        endpoint: text::without_trailing(url, "/metrics"@),
        metrics: url,
        models: Seq::empty(),
        loaded: Seq::empty(),
    }
}

/// The server behind the configured metrics address, for use where the scan
/// found none and the port of the address is open.
pub fn fallback_engine(url: &str, port: u16) -> (r: Engine)
    ensures
        r@ == fallback(url@, port),
{
    Engine {
        port,
        kind: text::copy("vllm"),
        endpoint: text::trim_trailing(url, "/metrics"),
        metrics: text::copy(url),
        models: no_texts(),
        loaded: no_texts(),
    }
}

/// The metrics address of the first server that has one.
pub open spec fn primary_of(list: Seq<Server>) -> Option<Seq<char>>
    decreases list.len(),
{
    if list.len() == 0 {
        None
    } else if list[0].metrics.len() > 0 {
        Some(list[0].metrics)
    } else {
        primary_of(list.drop_first())
    }
}

pub fn primary(list: &Vec<Engine>) -> (r: Option<String>)
    ensures
        r matches Some(m) ==> primary_of(servers(list@)) == Some(m@),
        r is None ==> primary_of(servers(list@)) is None,
{
    let ghost all = servers(list@);
    let mut i: usize = 0;
    assert(all.skip(0) =~= all);
    while i < list.len()
        invariant
            i <= list@.len(),
            all == servers(list@),
            primary_of(all) == primary_of(all.skip(i as int)),
        decreases list@.len() - i,
    {
        assert(all.skip(i as int)[0] == list@[i as int]@);
        assert(all.skip(i as int).drop_first() =~= all.skip(i + 1));
        if !text::is_empty(list[i].metrics.as_str()) {
            return Some(text::copy(list[i].metrics.as_str()));
        }
        i += 1;
    }
    None
}

// ---------------------------------------------------------------- loading a model

/// Whether an Ollama server was found on a port.
pub open spec fn is_ollama(list: Seq<Server>, port: u16) -> bool {
    exists|i: int|
        0 <= i < list.len() && (#[trigger] list[i]).port == port && list[i].kind == "ollama"@
}

/// Why a model is not loaded, if it is not: only servers that the agent found
/// itself are accepted, and only Ollama can load.
pub open spec fn load_refused(port: u16, model: Seq<char>, list: Seq<Server>) -> Option<Doc> {
    if model.len() == 0 {
        Some(commands::refusal_doc("load_model"@, "kein Modell angegeben"@))
    } else if !is_ollama(list, port) {
        Some(
            commands::refusal_doc(
                "load_model"@,
                "Port "@ + text::decimal(port as nat) + " ist kein erkannter Ollama-Endpunkt"@,
            ),
        )
    } else {
        None
    }
}

fn knows_ollama(list: &Vec<Engine>, port: u16) -> (r: bool)
    ensures
        r == is_ollama(servers(list@), port),
{
    let ghost all = servers(list@);
    let mut i: usize = 0;
    while i < list.len()
        invariant
            i <= list@.len(),
            all == servers(list@),
            forall|k: int|
                0 <= k < i ==> !((#[trigger] all[k]).port == port && all[k].kind == "ollama"@),
        decreases list@.len() - i,
    {
        assert(all[i as int] == list@[i as int]@);
        if list[i].port == port && text::same(list[i].kind.as_str(), "ollama") {
            return true;
        }
        i += 1;
    }
    false
}

/// The reply that refuses to load a model; nothing where it may be loaded.
pub fn load_refusal(port: u16, model: &str, list: &Vec<Engine>) -> (r: Option<Json>)
    ensures
        json::doc_if(r) == load_refused(port, model@, servers(list@)),
{
    if text::is_empty(model) {
        return Some(commands::refusal_reply("load_model", "kein Modell angegeben"));
    }
    if !knows_ollama(list, port) {
        let number = text::from_u64(port as u64);
        let error = text::cat3("Port ", number.as_str(), " ist kein erkannter Ollama-Endpunkt");
        return Some(commands::refusal_reply("load_model", error.as_str()));
    }
    None
}

/// The document that makes Ollama load a model: an empty prompt.
pub open spec fn generate_doc(model: Seq<char>) -> Doc {
    Doc::Object(
        seq![
            ("keep_alive"@, Doc::Text("10m"@)),
            ("model"@, Doc::Text(model)),
            ("prompt"@, Doc::Text(""@)),
        ],
    )
}

proof fn lemma_generate(model: Seq<char>)
    ensures
        json::whole(generate_doc(model)),
        json::canonical(generate_doc(model)),
        json::depth(generate_doc(model)) < 128,
{
    reveal_strlit("keep_alive");
    reveal_strlit("model");
    reveal_strlit("prompt");
    let m = generate_doc(model)->Object_0;
    assert(text::before("keep_alive"@, "model"@));
    assert(text::before("keep_alive"@, "prompt"@));
    assert(text::before("model"@, "prompt"@));
    json::lemma_flat(m);
}

/// The body of the request that makes Ollama load a model. It is read back as it
/// is.
pub fn generate_body(model: &str) -> (r: String)
    ensures
        r@ == json::json_rendered(generate_doc(model@)),
        json::json_text(r@) == Some(generate_doc(model@)),
{
    let m = json::no_members();
    let m = json::with(m, "keep_alive", Json::Text(text::copy("10m")));
    let m = json::with(m, "model", Json::Text(text::copy(model)));
    let m = json::with(m, "prompt", Json::Text(text::copy("")));
    let value = json::object(m);
    proof {
        assert(value@->Object_0 =~= generate_doc(model@)->Object_0);
        lemma_generate(model@);
    }
    json::render(&value)
}

/// The address to which that body is sent.
pub fn generate_url(port: u16) -> (r: String)
    ensures
        r@ == endpoint_of(port) + "/api/generate"@,
{
    address(port, "/api/generate")
}

/// The address that lists the loaded models.
pub fn loaded_url(port: u16) -> (r: String)
    ensures
        r@ == endpoint_of(port) + "/api/ps"@,
{
    address(port, "/api/ps")
}

/// The reply once Ollama has answered, or has not.
pub open spec fn load_answer(
    model: Seq<char>,
    response: Option<Doc>,
    loaded: Seq<Seq<char>>,
) -> Doc {
    let error = match response {
        Some(doc) => json::text_of(json::member(doc, "error"@)),
        None => Some("keine Antwort vom Ollama-Endpunkt"@),
    };
    match error {
        Some(e) => Doc::Object(
            seq![
                ("action"@, Doc::Text("load_model"@)),
                ("error"@, Doc::Text(e)),
                ("model"@, Doc::Text(model)),
                ("ok"@, Doc::Bool(false)),
            ],
        ),
        None => Doc::Object(
            seq![
                ("action"@, Doc::Text("load_model"@)),
                ("loaded"@, json::text_array(loaded)),
                ("model"@, Doc::Text(model)),
                ("ok"@, Doc::Bool(true)),
            ],
        ),
    }
}

pub fn load_reply(model: &str, response: Option<&Json>, loaded: &Vec<String>) -> (r: Json)
    ensures
        r@ == load_answer(model@, json::doc_of(response), text::views(loaded@)),
{
    let error: Option<String> = match response {
        Some(value) => match json::as_text(value.get("error")) {
            Some(e) => Some(text::copy(e.as_str())),
            None => None,
        },
        None => Some(text::copy("keine Antwort vom Ollama-Endpunkt")),
    };
    let m = json::no_members();
    let m = json::with(m, "action", Json::Text(text::copy("load_model")));
    let r = match error {
        Some(e) => {
            let m = json::with(m, "error", Json::Text(e));
            let m = json::with(m, "model", Json::Text(text::copy(model)));
            let m = json::with(m, "ok", Json::Bool(false));
            json::object(m)
        },
        None => {
            let m = json::with(m, "loaded", json::array_of_texts(loaded));
            let m = json::with(m, "model", Json::Text(text::copy(model)));
            let m = json::with(m, "ok", Json::Bool(true));
            json::object(m)
        },
    };
    proof {
        let told = load_answer(model@, json::doc_of(response), text::views(loaded@));
        assert(r@->Object_0 =~= told->Object_0);
    }
    r
}

/// No model is ever loaded into a server that the agent did not find, or that
/// is not Ollama.
pub proof fn only_found_servers_load(port: u16, model: Seq<char>, list: Seq<Server>)
    ensures
        load_refused(port, model, list) is None <==> model.len() > 0 && is_ollama(list, port),
{
}

// ---------------------------------------------------------------- metrics

/// The metrics that matter.
pub open spec fn metric_names() -> Seq<Seq<char>> {
    seq![
        "vllm:num_requests_running"@,
        "vllm:num_requests_waiting"@,
        "vllm:kv_cache_usage_perc"@,
        "vllm:gpu_cache_usage_perc"@,
        "vllm:prompt_tokens_total"@,
        "vllm:generation_tokens_total"@,
        "vllm:time_to_first_token_seconds_sum"@,
        "vllm:time_to_first_token_seconds_count"@,
        "vllm:num_preemptions_total"@,
        "vllm:spec_decode_num_draft_tokens_total"@,
        "vllm:spec_decode_num_accepted_tokens_total"@,
    ]
}

fn is_metric(name: &str) -> (r: bool)
    ensures
        r == metric_names().contains(name@),
{
    let names: Vec<&str> = vec![
        "vllm:num_requests_running",
        "vllm:num_requests_waiting",
        "vllm:kv_cache_usage_perc",
        "vllm:gpu_cache_usage_perc",
        "vllm:prompt_tokens_total",
        "vllm:generation_tokens_total",
        "vllm:time_to_first_token_seconds_sum",
        "vllm:time_to_first_token_seconds_count",
        "vllm:num_preemptions_total",
        "vllm:spec_decode_num_draft_tokens_total",
        "vllm:spec_decode_num_accepted_tokens_total",
    ];
    let ghost all = metric_names();
    assert(names@.map_values(|n: &str| n@) =~= all);
    let mut i: usize = 0;
    while i < names.len()
        invariant
            i <= names@.len(),
            all == names@.map_values(|n: &str| n@),
            all == metric_names(),
            forall|k: int| 0 <= k < i ==> all[k] != name@,
        decreases names@.len() - i,
    {
        assert(all[i as int] == names@[i as int]@);
        if text::same(names[i], name) {
            assert(all.contains(name@));
            return true;
        }
        i += 1;
    }
    assert(!all.contains(name@));
    false
}

/// The name of a metric line, where it is one of those that matter: what stands
/// before the labels or the value.
pub open spec fn metric_in(line: Seq<char>) -> Option<Seq<char>> {
    let name = text::head_before(line, '{', ' ');
    if line.len() == 0 || text::begins(line, "#"@) || !metric_names().contains(name) {
        None
    } else {
        Some(name)
    }
}

/// The value of a metric line: what stands behind its last space.
pub open spec fn value_in(line: Seq<char>) -> Seq<char> {
    match text::cut_last(line, ' ') {
        Some((_, value)) => value,
        None => line,
    }
}

/// The model that a metric line names.
pub open spec fn model_in(line: Seq<char>) -> Seq<char> {
    let mark = "model_name=\""@;
    match text::find_at(line, mark, 0) {
        Some(i) => match text::cut_first(line.skip(i + mark.len()), '"') {
            Some((model, _)) => model,
            None => Seq::empty(),
        },
        None => Seq::empty(),
    }
}

/// The metric lines, as names and values.
pub open spec fn values_in(lines: Seq<Seq<char>>) -> Seq<(Seq<char>, Seq<char>)>
    decreases lines.len(),
{
    if lines.len() == 0 {
        Seq::empty()
    } else {
        let rest = values_in(lines.drop_last());
        match metric_in(lines.last()) {
            Some(name) => rest.push((name, value_in(lines.last()))),
            None => rest,
        }
    }
}

/// The first model that a metric line names.
pub open spec fn model_of(lines: Seq<Seq<char>>) -> Seq<char>
    decreases lines.len(),
{
    if lines.len() == 0 {
        Seq::empty()
    } else {
        let before = model_of(lines.drop_last());
        if before.len() > 0 || metric_in(lines.last()) is None {
            before
        } else {
            model_in(lines.last())
        }
    }
}

pub open spec fn pair_views(list: Seq<(String, String)>) -> Seq<(Seq<char>, Seq<char>)> {
    list.map_values(|p: (String, String)| (p.0@, p.1@))
}

fn metric_of(line: &str) -> (r: Option<String>)
    ensures
        r matches Some(n) ==> metric_in(line@) == Some(n@),
        r is None ==> metric_in(line@) is None,
{
    if text::is_empty(line) || text::starts_with(line, "#") {
        return None;
    }
    let name = text::take_before(line, '{', ' ');
    if is_metric(name.as_str()) {
        Some(name)
    } else {
        None
    }
}

fn model_name(line: &str) -> (r: String)
    ensures
        r@ == model_in(line@),
{
    match text::find(line, "model_name=\"") {
        Some(i) => {
            proof {
                reveal_strlit("model_name=\"");
            }
            let n: usize = line.unicode_len();
            assert(i + 12 <= n);
            let rest = text::skip_chars(line, i + 12);
            match text::split_once(rest.as_str(), '"') {
                Some((model, _)) => model,
                None => nothing(),
            }
        },
        None => nothing(),
    }
}

/// Reads a metrics page: the lines that matter as names and value texts, in
/// order, and the model.
pub fn parse_vllm_metrics(body: &str) -> (r: (Vec<(String, String)>, String))
    ensures
        pair_views(r.0@) == values_in(text::line_list(body@)),
        r.1@ == model_of(text::line_list(body@)),
{
    let lines = text::lines(body);
    let ghost all = text::line_list(body@);
    let mut values: Vec<(String, String)> = Vec::new();
    let mut model = nothing();
    let mut i: usize = 0;
    assert(all.take(0) =~= Seq::empty());
    assert(pair_views(values@) =~= Seq::empty());
    while i < lines.len()
        invariant
            i <= lines@.len(),
            all == text::views(lines@),
            pair_views(values@) == values_in(all.take(i as int)),
            model@ == model_of(all.take(i as int)),
        decreases lines@.len() - i,
    {
        let ghost before = values@;
        assert(all.take(i + 1).drop_last() =~= all.take(i as int));
        assert(all.take(i + 1).last() == lines@[i as int]@);
        let line = lines[i].as_str();
        if let Some(name) = metric_of(line) {
            let value = match text::rsplit_once(line, ' ') {
                Some((_, value)) => value,
                None => text::copy(line),
            };
            let ghost pair = (name@, value@);
            values.push((name, value));
            assert(pair_views(values@) =~= pair_views(before).push(pair));
            if text::is_empty(model.as_str()) {
                model = model_name(line);
            }
        }
        i += 1;
    }
    assert(all.take(all.len() as int) =~= all);
    (values, model)
}

/// Whether the collector looks a metric up.
pub open spec fn looked_up(name: Seq<char>) -> bool {
    ||| name == "vllm:num_requests_running"@
    ||| name == "vllm:num_requests_waiting"@
    ||| name == "vllm:kv_cache_usage_perc"@
    ||| name == "vllm:gpu_cache_usage_perc"@
    ||| name == "vllm:prompt_tokens_total"@
    ||| name == "vllm:generation_tokens_total"@
    ||| name == "vllm:time_to_first_token_seconds_sum"@
    ||| name == "vllm:time_to_first_token_seconds_count"@
    ||| name == "vllm:num_preemptions_total"@
    ||| name == "vllm:spec_decode_num_draft_tokens_total"@
    ||| name == "vllm:spec_decode_num_accepted_tokens_total"@
}

proof fn lemma_metric_name(name: Seq<char>)
    requires
        looked_up(name),
    ensures
        metric_names().contains(name),
        name.len() > 0,
        name[0] == 'v',
        forall|i: int| 0 <= i < name.len() ==> name[i] != '{' && name[i] != ' ',
{
    let all = metric_names();
    assert(all[0] == "vllm:num_requests_running"@);
    assert(all[1] == "vllm:num_requests_waiting"@);
    assert(all[2] == "vllm:kv_cache_usage_perc"@);
    assert(all[3] == "vllm:gpu_cache_usage_perc"@);
    assert(all[4] == "vllm:prompt_tokens_total"@);
    assert(all[5] == "vllm:generation_tokens_total"@);
    assert(all[6] == "vllm:time_to_first_token_seconds_sum"@);
    assert(all[7] == "vllm:time_to_first_token_seconds_count"@);
    assert(all[8] == "vllm:num_preemptions_total"@);
    assert(all[9] == "vllm:spec_decode_num_draft_tokens_total"@);
    assert(all[10] == "vllm:spec_decode_num_accepted_tokens_total"@);
    reveal_strlit("vllm:num_requests_running");
    reveal_strlit("vllm:num_requests_waiting");
    reveal_strlit("vllm:kv_cache_usage_perc");
    reveal_strlit("vllm:gpu_cache_usage_perc");
    reveal_strlit("vllm:prompt_tokens_total");
    reveal_strlit("vllm:generation_tokens_total");
    reveal_strlit("vllm:time_to_first_token_seconds_sum");
    reveal_strlit("vllm:time_to_first_token_seconds_count");
    reveal_strlit("vllm:num_preemptions_total");
    reveal_strlit("vllm:spec_decode_num_draft_tokens_total");
    reveal_strlit("vllm:spec_decode_num_accepted_tokens_total");
}

/// Each of the eleven metrics of a vLLM server is read from the page: a line with
/// its name, with or without labels, adds the name and the value behind the last
/// space.
pub proof fn looked_up_metrics_are_read(
    lines: Seq<Seq<char>>,
    name: Seq<char>,
    labels: Seq<char>,
    value: Seq<char>,
)
    requires
        ({
            ||| name == "vllm:num_requests_running"@
            ||| name == "vllm:num_requests_waiting"@
            ||| name == "vllm:kv_cache_usage_perc"@
            ||| name == "vllm:gpu_cache_usage_perc"@
            ||| name == "vllm:prompt_tokens_total"@
            ||| name == "vllm:generation_tokens_total"@
            ||| name == "vllm:time_to_first_token_seconds_sum"@
            ||| name == "vllm:time_to_first_token_seconds_count"@
            ||| name == "vllm:num_preemptions_total"@
            ||| name == "vllm:spec_decode_num_draft_tokens_total"@
            ||| name == "vllm:spec_decode_num_accepted_tokens_total"@
        }),
        !value.contains(' '),
        labels.len() == 0 || labels[0] == '{',
    ensures
        values_in(lines.push((name + labels).push(' ') + value)) == values_in(lines).push(
            (name, value),
        ),
{
    lemma_metric_name(name);
    let line = (name + labels).push(' ') + value;
    let rest = labels.push(' ') + value;
    assert(line =~= name + rest);
    text::heads_end_at_the_mark(name, rest, '{', ' ');
    text::cuts_at_the_last_mark(name + labels, value, ' ');
    reveal_strlit("#");
    assert(line[0] == 'v');
    assert(line.take(1)[0] == 'v');
    assert("#"@[0] == '#');
    assert(!text::begins(line, "#"@));
    assert(lines.push(line).drop_last() =~= lines);
}

/// Comments, empty lines and other metrics add nothing, and name no model.
pub proof fn other_lines_are_skipped(lines: Seq<Seq<char>>, line: Seq<char>)
    requires
        line.len() == 0 || line[0] == '#' || !looked_up(text::head_before(line, '{', ' ')),
    ensures
        values_in(lines.push(line)) == values_in(lines),
        model_of(lines.push(line)) == model_of(lines),
        values_in(Seq::empty()).len() == 0,
        model_of(Seq::empty()).len() == 0,
{
    let name = text::head_before(line, '{', ' ');
    let all = metric_names();
    assert(lines.push(line).drop_last() =~= lines);
    reveal_strlit("#");
    if line.len() > 0 && line[0] == '#' {
        assert(line.take(1) =~= "#"@);
    } else if all.contains(name) {
        let i = choose|i: int| 0 <= i < all.len() && all[i] == name;
        assert(i == 0 || i == 1 || i == 2 || i == 3 || i == 4 || i == 5 || i == 6 || i == 7 || i
            == 8 || i == 9 || i == 10);
    }
}

/// The model is the one that the first metric line with a model names, between
/// the quotation marks.
pub proof fn the_first_model_is_taken(
    lines: Seq<Seq<char>>,
    line: Seq<char>,
    before: Seq<char>,
    model: Seq<char>,
    behind: Seq<char>,
)
    requires
        line == before + "model_name=\""@ + model.push('"') + behind,
        text::find_at(line, "model_name=\""@, 0) == Some(before.len() as int),
        !model.contains('"'),
        looked_up(text::head_before(line, '{', ' ')),
        line[0] == 'v',
    ensures
        model_of(lines).len() == 0 ==> model_of(lines.push(line)) == model,
        model_of(lines).len() > 0 ==> model_of(lines.push(line)) == model_of(lines),
{
    let mark = "model_name=\""@;
    reveal_strlit("model_name=\"");
    reveal_strlit("#");
    let name = text::head_before(line, '{', ' ');
    lemma_metric_name(name);
    assert(line.len() > 0);
    assert(line.take(1)[0] == 'v');
    assert("#"@[0] == '#');
    assert(!text::begins(line, "#"@));
    assert(line.skip((before.len() + mark.len()) as int) =~= model.push('"') + behind);
    text::cuts_at_the_first_mark(model, behind, '"');
    assert(lines.push(line).drop_last() =~= lines);
}

/// A server that lists models in the manner of OpenAI is found with those
/// models; it is vLLM exactly where its metrics page names vLLM, and only then
/// has it metrics.
pub proof fn openai_servers_are_recognised(port: u16, tags: Page, listed: Page, metrics: Page)
    requires
        !(document_in(tags) matches Some(doc) && json::items_of(
            json::member(doc, "models"@),
        ) is Some),
        document_in(listed) is Some,
    ensures
        ({
            let url = "http://127.0.0.1:"@ + text::decimal(port as nat);
            let first = opening(port);
            let second = asked(first.0, tags);
            let third = asked(second.0, listed);
            let last = asked(third.0, metrics);
            let named = page_in(metrics) matches Some(t) && text::occurs(t, "vllm:"@);
            &&& first.1 == Ask::Document { url: url + "/api/tags"@, seconds: 1 }
            &&& second.1 == Ask::Document { url: url + "/v1/models"@, seconds: 2 }
            &&& third.1 == Ask::Page { url: url + "/metrics"@, seconds: 2, limit: 65536 }
            &&& last.1 matches Ask::Found(server) && {
                &&& server.port == port
                &&& server.endpoint == url
                &&& server.kind == if named {
                    "vllm"@
                } else {
                    "openai"@
                }
                &&& server.metrics == if named {
                    url + "/metrics"@
                } else {
                    Seq::empty()
                }
                &&& server.models == listing(document_in(listed)->0, "data"@, "id"@)
                &&& server.loaded == server.models
            }
        }),
{
}

/// Where neither listing answers, nothing is found.
pub proof fn silent_ports_are_nothing(port: u16, tags: Page, listed: Page, again: Page)
    requires
        document_in(tags) is None,
        document_in(listed) is None,
        document_in(again) is None,
    ensures
        asked(asked(asked(opening(port).0, tags).0, listed).0, again).1 == Ask::Nothing,
{
}

/// What Ollama says of itself: its kind, its address, no metrics, and the models
/// of its own listings.
pub proof fn ollama_describes_itself(port: u16, tags: Page, loaded: Page)
    requires
        document_in(tags) matches Some(doc) && json::items_of(json::member(doc, "models"@)) is Some,
    ensures
        ({
            let url = "http://127.0.0.1:"@ + text::decimal(port as nat);
            let second = asked(opening(port).0, tags);
            &&& second.1 == Ask::Document { url: url + "/api/ps"@, seconds: 2 }
            &&& asked(second.0, loaded).1 matches Ask::Found(server) && {
                &&& server.port == port
                &&& server.kind == "ollama"@
                &&& server.endpoint == url
                &&& server.metrics.len() == 0
                &&& server.models == listing(document_in(tags)->0, "models"@, "name"@)
                &&& document_in(loaded) matches Some(doc) ==> server.loaded == listing(
                    doc,
                    "models"@,
                    "name"@,
                )
                &&& document_in(loaded) is None ==> server.loaded.len() == 0
            }
        }),
{
}

/// A listing holds the text under the key of every item, in order.
pub proof fn listings_name_every_item(doc: Doc, list: Seq<char>, key: Seq<char>, items: Seq<Doc>, names: Seq<Seq<char>>)
    requires
        json::member(doc, list) == Some(Doc::Array(items)),
        names.len() == items.len(),
        forall|i: int|
            0 <= i < items.len() ==> json::member(#[trigger] items[i], key) == Some(
                Doc::Text(names[i]),
            ),
    ensures
        listing(doc, list, key) == names,
{
    lemma_field_texts(items, key, names);
}

proof fn lemma_field_texts(items: Seq<Doc>, key: Seq<char>, names: Seq<Seq<char>>)
    requires
        names.len() == items.len(),
        forall|i: int|
            0 <= i < items.len() ==> json::member(#[trigger] items[i], key) == Some(
                Doc::Text(names[i]),
            ),
    ensures
        field_texts(items, key) == names,
    decreases items.len(),
{
    if items.len() > 0 {
        let shorter = items.drop_last();
        assert forall|i: int| 0 <= i < shorter.len() implies json::member(
            #[trigger] shorter[i],
            key,
        ) == Some(Doc::Text(names.drop_last()[i])) by {
            assert(shorter[i] == items[i]);
        }
        lemma_field_texts(shorter, key, names.drop_last());
        assert(items.last() == items[items.len() - 1]);
        assert(names.drop_last().push(names.last()) =~= names);
    } else {
        assert(field_texts(items, key) =~= names);
    }
}

/// The metrics that are read are those of the first server that has some.
pub proof fn the_first_metrics_are_read(list: Seq<Server>, k: int)
    requires
        0 <= k < list.len(),
        list[k].metrics.len() > 0,
        forall|j: int| 0 <= j < k ==> (#[trigger] list[j]).metrics.len() == 0,
    ensures
        primary_of(list) == Some(list[k].metrics),
    decreases k,
{
    if k > 0 {
        let rest = list.drop_first();
        assert(list[0].metrics.len() == 0);
        assert forall|j: int| 0 <= j < k - 1 implies (#[trigger] rest[j]).metrics.len() == 0 by {
            assert(rest[j] == list[j + 1]);
        }
        the_first_metrics_are_read(rest, k - 1);
    }
}

/// Servers without metrics leave nothing to read.
pub proof fn without_metrics_nothing_is_read(list: Seq<Server>)
    requires
        forall|j: int| 0 <= j < list.len() ==> (#[trigger] list[j]).metrics.len() == 0,
    ensures
        primary_of(list) is None,
    decreases list.len(),
{
    if list.len() > 0 {
        let rest = list.drop_first();
        assert(list[0].metrics.len() == 0);
        assert forall|j: int| 0 <= j < rest.len() implies (#[trigger] rest[j]).metrics.len()
            == 0 by {
            assert(rest[j] == list[j + 1]);
        }
        without_metrics_nothing_is_read(rest);
    }
}

/// The ports that are tried are the usual ones of vLLM, of servers with the
/// OpenAI interface and of Ollama.
pub proof fn usual_ports_are_tried(port: u16)
    ensures
        usual_ports().contains(port) <==> 8000 <= port <= 8002 || 8080 <= port <= 8081 || port
            == 9000 || port == 30000 || port == 11434,
{
    let all = usual_ports();
    assert(all[0] == 8000 && all[1] == 8001 && all[2] == 8002 && all[3] == 8080 && all[4] == 8081
        && all[5] == 9000 && all[6] == 30000 && all[7] == 11434);
}

/// Ollama is asked for the model with an empty prompt, and keeps it for ten
/// minutes.
pub proof fn models_are_asked_for(model: Seq<char>)
    ensures
        json::member(generate_doc(model), "model"@) == Some(Doc::Text(model)),
        json::member(generate_doc(model), "prompt"@) == Some(Doc::Text(Seq::empty())),
        json::member(generate_doc(model), "keep_alive"@) == Some(Doc::Text("10m"@)),
{
    lemma_generate(model);
    let m = generate_doc(model)->Object_0;
    json::lemma_lookup(m, 0);
    json::lemma_lookup(m, 1);
    json::lemma_lookup(m, 2);
    reveal_strlit("");
    assert(""@ =~= Seq::<char>::empty());
}

/// The server of a configured address is vLLM, read at that address and named
/// without the path.
pub proof fn configured_servers_are_vllm(base: Seq<char>, port: u16)
    requires
        !text::ends(base, "/metrics"@),
    ensures
        ({
            let server = fallback(base + "/metrics"@, port);
            &&& server.kind == "vllm"@
            &&& server.port == port
            &&& server.metrics == base + "/metrics"@
            &&& server.endpoint == base
            &&& server.models.len() == 0
        }),
{
    let p = "/metrics"@;
    let url = base + p;
    reveal_strlit("/metrics");
    assert(url.skip(url.len() - p.len()) =~= p);
    assert(url.take(url.len() - p.len()) =~= base);
    assert(text::ends(url, p));
    assert(text::without_trailing(base, p) == base);
    assert(text::without_trailing(url, p) == text::without_trailing(url.take(url.len() - p.len()), p));
}

} // verus!
