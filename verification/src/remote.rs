//! The remote nodes in the popup: a summary of each, and its details when it is
//! unfolded.
use crate::ieee;
use crate::install;
use crate::install::AgentVersionState;
use crate::layout;
use crate::pieces;
use crate::pieces::{Part, Piece, Quantity, Tone};
use crate::spark;
use crate::spark::{Agent, AgentState, Client, Engine, EngineInfo, Snapshot, SparkSnapshot};
use crate::summary;
use crate::summary::Warning;
use crate::text;
use vstd::prelude::*;

verus! {

/// The pictures in front of the lines.
#[derive(Debug, Clone, Copy, PartialEq, Eq, Structural)]
pub enum Icon {
    Cpu,
    Ram,
    Gpu,
    Vram,
    Power,
    Spark,
}

/// One line below an unfolded node.
#[derive(Debug)]
pub enum Detail {
    Caption(Vec<Piece>),
    Colored(String, Tone),
    /// A label and a value with a leader between them.
    Row { icon: Icon, label: String, value: Vec<Piece> },
    /// A label and a value that gives reason to worry.
    Worry { icon: Icon, label: String, value: String },
    /// The token rates of the last hour.
    TokenChart,
    /// The cache usage of the last hour.
    CacheChart,
    /// A server whose models can be looked at.
    Endpoint { port: u16, kind: String, models: String },
}

/// A line as characters.
pub enum Fact {
    Caption(Seq<Part>),
    Colored(Seq<char>, Tone),
    Row { icon: Icon, label: Seq<char>, value: Seq<Part> },
    Worry { icon: Icon, label: Seq<char>, value: Seq<char> },
    TokenChart,
    CacheChart,
    Endpoint { port: u16, kind: Seq<char>, models: Seq<char> },
}

impl View for Detail {
    type V = Fact;

    open spec fn view(&self) -> Fact {
        match *self {
            Detail::Caption(line) => Fact::Caption(pieces::line(line@)),
            Detail::Colored(s, tone) => Fact::Colored(s@, tone),
            Detail::Row { icon, label, value } => Fact::Row {
                icon,
                label: label@,
                value: pieces::line(value@),
            },
            Detail::Worry { icon, label, value } => Fact::Worry {
                icon,
                label: label@,
                value: value@,
            },
            Detail::TokenChart => Fact::TokenChart,
            Detail::CacheChart => Fact::CacheChart,
            Detail::Endpoint { port, kind, models } => Fact::Endpoint {
                port,
                kind: kind@,
                models: models@,
            },
        }
    }
}

pub open spec fn facts(list: Seq<Detail>) -> Seq<Fact> {
    list.map_values(|d: Detail| d@)
}

/// Adds a line.
pub fn put(list: &mut Vec<Detail>, detail: Detail)
    ensures
        facts(final(list)@) == facts(old(list)@).push(detail@),
{
    let ghost before = facts(list@);
    list.push(detail);
    assert(facts(list@) =~= before.push(detail@));
}

/// Adds a line with a label and a value.
pub fn add_row(list: &mut Vec<Detail>, icon: Icon, label: &str, value: Vec<Piece>)
    ensures
        facts(final(list)@) == facts(old(list)@).push(
            Fact::Row { icon, label: label@, value: pieces::line(value@) },
        ),
{
    put(list, Detail::Row { icon, label: text::copy(label), value });
}

/// A line with a label and a value.
pub open spec fn row(icon: Icon, label: Seq<char>, value: Seq<Part>) -> Fact {
    Fact::Row { icon, label, value }
}

// ---------------------------------------------------------------- the engine

/// The first engine with metrics, or just the first one.
pub open spec fn speaking(engines: Seq<Engine>) -> Option<Engine> {
    match with_metrics(engines) {
        Some(e) => Some(e),
        None => if engines.len() > 0 {
            Some(engines[0])
        } else {
            None
        },
    }
}

pub open spec fn with_metrics(engines: Seq<Engine>) -> Option<Engine>
    decreases engines.len(),
{
    if engines.len() == 0 {
        None
    } else if engines[0].has_metrics {
        Some(engines[0])
    } else {
        with_metrics(engines.drop_first())
    }
}

fn find_speaking(engines: &Vec<EngineInfo>) -> (r: Option<&EngineInfo>)
    ensures
        match r {
            Some(e) => speaking(spark::engine_views(engines@)) == Some(e@),
            None => speaking(spark::engine_views(engines@)) is None,
        },
{
    let ghost all = spark::engine_views(engines@);
    let mut i: usize = 0;
    assert(all.skip(0) =~= all);
    while i < engines.len()
        invariant
            i <= engines@.len(),
            all == spark::engine_views(engines@),
            with_metrics(all) == with_metrics(all.skip(i as int)),
        decreases engines@.len() - i,
    {
        assert(all.skip(i as int)[0] == engines@[i as int]@);
        assert(all.skip(i as int).drop_first() =~= all.skip(i + 1));
        if engines[i].has_metrics {
            return Some(&engines[i]);
        }
        i += 1;
    }
    assert(all.len() == engines@.len());
    if engines.len() > 0 {
        assert(all[0] == engines@[0]@);
        Some(&engines[0])
    } else {
        None
    }
}

/// What the models of an engine are summed up to.
pub open spec fn model_words(e: Engine) -> Seq<char> {
    if e.models.len() == 0 {
        "Modelle unbekannt"@
    } else if e.models.len() == 1 {
        e.models[0]
    } else {
        text::decimal(e.models.len()) + " Modelle"@
    }
}

/// The part of the summary that speaks of the engine.
pub open spec fn engine_summary(a: Agent) -> Seq<Part> {
    if a.engine.available {
        seq![
            Part::Words(
                (match speaking(a.engines) {
                    Some(e) => spark::engine_label(e),
                    None => "Engine"@,
                }) + " · "@,
            ),
            pieces::single(a.engine.gen_tok_s, 1),
            Part::Words(" tok/s · KV "@),
            pieces::single(a.engine.kv_cache_pct, 0),
            Part::Words(" %"@),
        ]
    } else if a.engines.len() > 0 {
        seq![
            Part::Words(spark::engine_label(a.engines[0]) + " · "@ + model_words(a.engines[0])),
        ]
    } else if a.engine.reason == "no-endpoint"@ {
        seq![Part::Words("kein lokaler LLM-Endpunkt"@)]
    } else {
        Seq::empty()
    }
}

fn engine_pieces(a: &AgentState) -> (r: Vec<Piece>)
    ensures
        pieces::line(r@) == engine_summary(a@),
{
    assert(a@.engines.len() == a.engines@.len());
    if a.engine.available {
        let label = match find_speaking(&a.engines) {
            Some(e) => e.label(),
            None => text::copy("Engine"),
        };
        let head = text::cat2(label.as_str(), " · ");
        let line = pieces::words(pieces::no_pieces(), head.as_str());
        let line = pieces::number(line, Quantity::Single(a.engine.gen_tok_s), 1, 0);
        let line = pieces::words(line, " tok/s · KV ");
        let line = pieces::number(line, Quantity::Single(a.engine.kv_cache_pct), 0, 0);
        let line = pieces::words(line, " %");
        assert(pieces::line(line@) =~= engine_summary(a@));
        line
    } else if a.engines.len() > 0 {
        let e = &a.engines[0];
        assert(a@.engines[0] == e@);
        assert(e@.models.len() == e.models@.len());
        let models = if e.models.len() == 0 {
            text::copy("Modelle unbekannt")
        } else if e.models.len() == 1 {
            assert(e@.models[0] == e.models@[0]@);
            text::copy(e.models[0].as_str())
        } else {
            let n = text::from_u64(e.models.len() as u64);
            text::cat2(n.as_str(), " Modelle")
        };
        let label = e.label();
        let whole = text::cat3(label.as_str(), " · ", models.as_str());
        pieces::plain(whole.as_str())
    } else if text::same(a.engine.reason.as_str(), "no-endpoint") {
        pieces::plain("kein lokaler LLM-Endpunkt")
    } else {
        pieces::no_pieces()
    }
}

/// Whether the agent of a node is older than the one that is shipped.
pub open spec fn outdated(a: Agent) -> bool {
    install::version_state(a.version, install::AGENT_VERSION@) is Outdated
}

/// What the summary says of a node that is reachable.
pub open spec fn online_summary(a: Agent) -> Seq<Part> {
    let engine = engine_summary(a);
    let power = if a.node.gpu_available {
        pieces::continued(
            engine,
            seq![pieces::single(a.node.gpu_power_w, 0), Part::Words(" W"@)],
        )
    } else {
        engine
    };
    if spark::is_hot(a) {
        pieces::continued(
            power,
            seq![
                Part::Words("GPU "@),
                pieces::single(a.node.gpu_temp_c, 0),
                Part::Words(" °C"@),
            ],
        )
    } else {
        power
    }
}

/// What the summary says of a node that is not reachable.
pub open spec fn offline_summary(a: Agent) -> Seq<Part> {
    seq![
        Part::Words(
            if a.status.len() == 0 {
                "offline"@
            } else {
                "offline · "@ + a.status
            },
        ),
    ]
}

/// The summary of a node, and how much it matters.
pub open spec fn summary_of(a: Agent) -> Seq<Part> {
    let first = if a.online {
        online_summary(a)
    } else {
        offline_summary(a)
    };
    if outdated(a) {
        pieces::continued(first, seq![Part::Words("Agent "@ + a.version)])
    } else {
        first
    }
}

pub open spec fn tone_of(a: Agent) -> Tone {
    if !a.online {
        Tone::Bad
    } else if spark::is_hot(a) || outdated(a) {
        Tone::Warn
    } else {
        Tone::Plain
    }
}

fn online_pieces(a: &AgentState, hot: bool) -> (r: Vec<Piece>)
    requires
        hot == spark::is_hot(a@),
    ensures
        pieces::line(r@) == online_summary(a@),
{
    let line = engine_pieces(a);
    let line = if a.node.gpu_available {
        let power = pieces::number(
            pieces::no_pieces(),
            Quantity::Single(a.node.gpu_power_w),
            0,
            0,
        );
        let power = pieces::words(power, " W");
        assert(pieces::line(power@) =~= seq![
            pieces::single(a.node.gpu_power_w, 0),
            Part::Words(" W"@),
        ]);
        pieces::append(line, power)
    } else {
        line
    };
    if hot {
        let heat = pieces::words(pieces::no_pieces(), "GPU ");
        let heat = pieces::number(heat, Quantity::Single(a.node.gpu_temp_c), 0, 0);
        let heat = pieces::words(heat, " °C");
        assert(pieces::line(heat@) =~= seq![
            Part::Words("GPU "@),
            pieces::single(a.node.gpu_temp_c, 0),
            Part::Words(" °C"@),
        ]);
        pieces::append(line, heat)
    } else {
        line
    }
}

fn summary_pieces(a: &AgentState, hot: bool, old: bool) -> (r: Vec<Piece>)
    requires
        hot == spark::is_hot(a@),
        old == outdated(a@),
    ensures
        pieces::line(r@) == summary_of(a@),
{
    let line = if a.online {
        online_pieces(a, hot)
    } else if text::is_empty(a.status.as_str()) {
        pieces::plain("offline")
    } else {
        let words = text::cat2("offline · ", a.status.as_str());
        pieces::plain(words.as_str())
    };
    if old {
        let words = text::cat2("Agent ", a.version.as_str());
        pieces::append(line, pieces::plain(words.as_str()))
    } else {
        line
    }
}

// ---------------------------------------------------------------- details: the engine

/// The values of an engine.
pub open spec fn value_facts(m: spark::Metrics) -> Seq<Fact> {
    seq![
        row(Icon::Spark, "Modell"@, seq![Part::Words(m.model)]),
        row(
            Icon::Power,
            "Token-Rate"@,
            seq![
                pieces::single(m.gen_tok_s, 1),
                Part::Words("/"@),
                pieces::single(m.prompt_tok_s, 1),
                Part::Words(" tok/s"@),
            ],
        ),
        row(
            Icon::Cpu,
            "TTFT (Ø)"@,
            seq![pieces::single(m.ttft_ms, 0), Part::Words(" ms"@)],
        ),
        row(
            Icon::Vram,
            "KV-Cache"@,
            seq![pieces::single(m.kv_cache_pct, 1), Part::Words(" %"@)],
        ),
        row(
            Icon::Gpu,
            "Anfragen"@,
            seq![
                Part::Words(
                    text::decimal(m.running as nat) + " aktiv · "@ + text::decimal(
                        m.waiting as nat,
                    ) + " wartend"@,
                ),
            ],
        ),
    ]
}

/// The values of an engine that not every engine has.
pub open spec fn special_facts(m: spark::Metrics) -> Seq<Fact> {
    let first = match m.spec_accept_pct {
        Some(accept) => seq![
            row(
                Icon::Gpu,
                "Spekulation"@,
                seq![pieces::single(accept, 0), Part::Words(" % akzeptiert"@)],
            ),
        ],
        None => Seq::empty(),
    };
    if m.preemptions_total > 0 {
        first.push(
            Fact::Worry {
                icon: Icon::Power,
                label: "Präemptionen"@,
                value: text::decimal(m.preemptions_total as nat),
            },
        )
    } else {
        first
    }
}

/// The charts of the last hour, where there are values to draw.
pub open spec fn chart_facts(s: Snapshot) -> Seq<Fact> {
    let first = if s.gen_tok_s.len() >= 2 {
        seq![Fact::TokenChart]
    } else {
        Seq::empty()
    };
    if s.kv_pct.len() >= 2 {
        first.push(Fact::CacheChart)
    } else {
        first
    }
}

/// What is said of the engine of a node.
pub open spec fn engine_facts(s: Snapshot, m: spark::Metrics) -> Seq<Fact> {
    if m.available {
        value_facts(m) + special_facts(m) + chart_facts(s)
    } else if m.reason == "no-endpoint"@ {
        seq![
            Fact::Caption(
                seq![
                    Part::Words(
                        "Kein lokaler vLLM-Endpunkt auf diesem Rechner (headless Rank)."@,
                    ),
                ],
            ),
        ]
    } else {
        match m.error {
            Some(error) => if error.len() > 0 {
                seq![Fact::Colored(error, Tone::Bad)]
            } else {
                Seq::empty()
            },
            None => Seq::empty(),
        }
    }
}

fn add_values(list: &mut Vec<Detail>, m: &spark::EngineMetrics)
    ensures
        facts(final(list)@) == facts(old(list)@) + value_facts(m@),
{
    let ghost start = facts(list@);
    add_row(list, Icon::Spark, "Modell", pieces::plain(m.model.as_str()));
    let rate = pieces::number(pieces::no_pieces(), Quantity::Single(m.gen_tok_s), 1, 0);
    let rate = pieces::words(rate, "/");
    let rate = pieces::number(rate, Quantity::Single(m.prompt_tok_s), 1, 0);
    let rate = pieces::words(rate, " tok/s");
    assert(pieces::line(rate@) =~= seq![
        pieces::single(m.gen_tok_s, 1),
        Part::Words("/"@),
        pieces::single(m.prompt_tok_s, 1),
        Part::Words(" tok/s"@),
    ]);
    add_row(list, Icon::Power, "Token-Rate", rate);
    let first = pieces::number(pieces::no_pieces(), Quantity::Single(m.ttft_ms), 0, 0);
    let first = pieces::words(first, " ms");
    assert(pieces::line(first@) =~= seq![pieces::single(m.ttft_ms, 0), Part::Words(" ms"@)]);
    add_row(list, Icon::Cpu, "TTFT (Ø)", first);
    let cache = pieces::number(pieces::no_pieces(), Quantity::Single(m.kv_cache_pct), 1, 0);
    let cache = pieces::words(cache, " %");
    assert(pieces::line(cache@) =~= seq![pieces::single(m.kv_cache_pct, 1), Part::Words(" %"@)]);
    add_row(list, Icon::Vram, "KV-Cache", cache);
    let running = text::from_u64(m.running as u64);
    let waiting = text::from_u64(m.waiting as u64);
    let requests = text::cat4(running.as_str(), " aktiv · ", waiting.as_str(), " wartend");
    add_row(list, Icon::Gpu, "Anfragen", pieces::plain(requests.as_str()));
    assert(facts(list@) =~= start + value_facts(m@));
}

fn add_specials(list: &mut Vec<Detail>, m: &spark::EngineMetrics)
    ensures
        facts(final(list)@) == facts(old(list)@) + special_facts(m@),
{
    let ghost start = facts(list@);
    if let Some(accept) = m.spec_accept_pct {
        let line = pieces::number(pieces::no_pieces(), Quantity::Single(accept), 0, 0);
        let line = pieces::words(line, " % akzeptiert");
        assert(pieces::line(line@) =~= seq![
            pieces::single(accept, 0),
            Part::Words(" % akzeptiert"@),
        ]);
        add_row(list, Icon::Gpu, "Spekulation", line);
    }
    if m.preemptions_total > 0 {
        put(
            list,
            Detail::Worry {
                icon: Icon::Power,
                label: text::copy("Präemptionen"),
                value: text::from_u64(m.preemptions_total),
            },
        );
    }
    assert(facts(list@) =~= start + special_facts(m@));
}

fn add_charts(list: &mut Vec<Detail>, s: &SparkSnapshot)
    ensures
        facts(final(list)@) == facts(old(list)@) + chart_facts(s@),
{
    let ghost start = facts(list@);
    if s.gen_tok_s.len() >= 2 {
        put(list, Detail::TokenChart);
    }
    if s.kv_pct.len() >= 2 {
        put(list, Detail::CacheChart);
    }
    assert(facts(list@) =~= start + chart_facts(s@));
}

fn add_engine(list: &mut Vec<Detail>, s: &SparkSnapshot, m: &spark::EngineMetrics)
    ensures
        facts(final(list)@) == facts(old(list)@) + engine_facts(s@, m@),
{
    let ghost start = facts(list@);
    if m.available {
        add_values(list, m);
        add_specials(list, m);
        add_charts(list, s);
        assert(facts(list@) =~= start + engine_facts(s@, m@));
    } else if text::same(m.reason.as_str(), "no-endpoint") {
        put(
            list,
            Detail::Caption(
                pieces::plain("Kein lokaler vLLM-Endpunkt auf diesem Rechner (headless Rank)."),
            ),
        );
        assert(facts(list@) =~= start + engine_facts(s@, m@));
    } else {
        if let Some(error) = &m.error {
            if !text::is_empty(error.as_str()) {
                put(list, Detail::Colored(text::copy(error.as_str()), Tone::Bad));
            }
        }
        assert(facts(list@) =~= start + engine_facts(s@, m@));
    }
}

// ---------------------------------------------------------------- details: endpoints

/// The lines of one server.
pub open spec fn endpoint_of(e: Engine) -> Seq<Fact> {
    let first = Fact::Endpoint {
        port: e.port,
        kind: e.kind,
        models: text::decimal(e.model_count as nat) + " Modelle"@ + (if e.has_metrics {
            " · Metriken"@
        } else {
            Seq::empty()
        }),
    };
    if e.loaded.len() > 0 {
        seq![
            first,
            Fact::Caption(
                seq![Part::Words("geladen: "@ + text::joined(e.loaded, ", "@))],
            ),
        ]
    } else {
        seq![first]
    }
}

/// The lines of all servers.
pub open spec fn endpoint_facts(engines: Seq<Engine>) -> Seq<Fact>
    decreases engines.len(),
{
    if engines.len() == 0 {
        Seq::empty()
    } else {
        endpoint_facts(engines.drop_last()) + endpoint_of(engines.last())
    }
}

fn add_endpoint(list: &mut Vec<Detail>, e: &EngineInfo)
    ensures
        facts(final(list)@) == facts(old(list)@) + endpoint_of(e@),
{
    let ghost start = facts(list@);
    let count = text::from_u64(e.model_count as u64);
    let models = text::cat2(count.as_str(), " Modelle");
    let models = if e.has_metrics {
        text::cat2(models.as_str(), " · Metriken")
    } else {
        assert(models@ + Seq::<char>::empty() =~= models@);
        models
    };
    put(list, Detail::Endpoint { port: e.port, kind: text::copy(e.kind.as_str()), models });
    assert(e@.loaded.len() == e.loaded@.len());
    if e.loaded.len() > 0 {
        let names = text::join(&e.loaded, ", ");
        let words = text::cat2("geladen: ", names.as_str());
        put(list, Detail::Caption(pieces::plain(words.as_str())));
    }
    assert(facts(list@) =~= start + endpoint_of(e@));
}

fn add_endpoints(list: &mut Vec<Detail>, engines: &Vec<EngineInfo>)
    ensures
        facts(final(list)@) == facts(old(list)@) + endpoint_facts(spark::engine_views(engines@)),
{
    let ghost start = facts(list@);
    let ghost all = spark::engine_views(engines@);
    let mut i: usize = 0;
    assert(all.take(0) =~= Seq::empty());
    assert(start + endpoint_facts(Seq::empty()) =~= start);
    while i < engines.len()
        invariant
            i <= engines@.len(),
            all == spark::engine_views(engines@),
            facts(list@) == start + endpoint_facts(all.take(i as int)),
        decreases engines@.len() - i,
    {
        assert(all.take(i + 1).drop_last() =~= all.take(i as int));
        assert(all.take(i + 1).last() == engines@[i as int]@);
        let ghost before = endpoint_facts(all.take(i as int));
        add_endpoint(list, &engines[i]);
        assert(start + before + endpoint_of(engines@[i as int]@) =~= start + (before
            + endpoint_of(engines@[i as int]@)));
        i += 1;
    }
    assert(all.take(all.len() as int) =~= all);
}

// ---------------------------------------------------------------- details: the machine

/// Processor and memory of a node.
pub open spec fn machine_facts(a: Agent) -> Seq<Fact> {
    seq![
        row(
            Icon::Cpu,
            if a.cpu_model.len() == 0 {
                "CPU"@
            } else {
                layout::compact_cpu(a.cpu_model)
            },
            seq![
                Part::Words(text::decimal(a.node.cpu_count as nat) + " Kerne · "@),
                pieces::single(a.node.cpu_pct, 0),
                Part::Words(" %"@),
            ],
        ),
        row(
            Icon::Ram,
            "Arbeitsspeicher"@,
            seq![
                pieces::single(a.node.mem_used_gib, 0),
                Part::Words("/"@),
                pieces::single(a.node.mem_total_gib, 0),
                Part::Words(" GiB "@),
                pieces::single(a.node.mem_pct, 0),
                Part::Words(" %"@),
            ],
        ),
    ]
}

/// The memory of the GPUs, where it is known.
pub open spec fn vram_facts(a: Agent) -> Seq<Fact> {
    if ieee::below_double(0, a.gpu_vram_total_mib) {
        seq![
            row(
                Icon::Vram,
                "GPU-VRAM"@,
                seq![
                    pieces::round(Quantity::Gib(a.gpu_vram_used_mib)),
                    Part::Words("/"@),
                    pieces::round(Quantity::Gib(a.gpu_vram_total_mib)),
                    Part::Words(" GiB "@),
                    pieces::round(
                        Quantity::Share {
                            part: a.gpu_vram_used_mib,
                            whole: a.gpu_vram_total_mib,
                        },
                    ),
                    Part::Words(" %"@),
                ],
            ),
        ]
    } else {
        Seq::empty()
    }
}

/// The GPUs of a node.
pub open spec fn gpu_facts(a: Agent) -> Seq<Fact> {
    if a.node.gpu_available {
        seq![
            row(
                Icon::Gpu,
                if a.gpu_name.len() == 0 {
                    "GPU"@
                } else {
                    a.gpu_name
                },
                seq![
                    pieces::single(a.node.gpu_util_pct, 0),
                    Part::Words(" % · "@),
                    pieces::single(a.node.gpu_power_w, 0),
                    Part::Words(" W"@),
                ],
            ),
        ] + vram_facts(a) + seq![
            row(
                Icon::Power,
                "GPU-Temperatur"@,
                seq![
                    pieces::single(a.node.gpu_temp_c, 0),
                    Part::Words(" °C · load "@),
                    pieces::single(a.node.load1, 2),
                ],
            ),
        ]
    } else {
        seq![
            Fact::Caption(
                seq![
                    Part::Words(
                        "Keine GPU-Werte: der Agent findet weder nvidia-smi noch eine GPU in /sys/class/drm."@,
                    ),
                ],
            ),
        ]
    }
}

fn add_machine(list: &mut Vec<Detail>, a: &AgentState)
    ensures
        facts(final(list)@) == facts(old(list)@) + machine_facts(a@),
{
    let ghost start = facts(list@);
    let cpu = if text::is_empty(a.cpu_model.as_str()) {
        text::copy("CPU")
    } else {
        layout::compact_cpu_label(a.cpu_model.as_str())
    };
    let count = text::from_u64(a.node.cpu_count as u64);
    let head = text::cat2(count.as_str(), " Kerne · ");
    let load = pieces::words(pieces::no_pieces(), head.as_str());
    let load = pieces::number(load, Quantity::Single(a.node.cpu_pct), 0, 0);
    let load = pieces::words(load, " %");
    assert(pieces::line(load@) =~= seq![
        Part::Words(text::decimal(a.node.cpu_count as nat) + " Kerne · "@),
        pieces::single(a.node.cpu_pct, 0),
        Part::Words(" %"@),
    ]);
    add_row(list, Icon::Cpu, cpu.as_str(), load);
    let memory = pieces::number(
        pieces::no_pieces(),
        Quantity::Single(a.node.mem_used_gib),
        0,
        0,
    );
    let memory = pieces::words(memory, "/");
    let memory = pieces::number(memory, Quantity::Single(a.node.mem_total_gib), 0, 0);
    let memory = pieces::words(memory, " GiB ");
    let memory = pieces::number(memory, Quantity::Single(a.node.mem_pct), 0, 0);
    let memory = pieces::words(memory, " %");
    assert(pieces::line(memory@) =~= seq![
        pieces::single(a.node.mem_used_gib, 0),
        Part::Words("/"@),
        pieces::single(a.node.mem_total_gib, 0),
        Part::Words(" GiB "@),
        pieces::single(a.node.mem_pct, 0),
        Part::Words(" %"@),
    ]);
    add_row(list, Icon::Ram, "Arbeitsspeicher", memory);
    assert(facts(list@) =~= start + machine_facts(a@));
}

fn add_vram(list: &mut Vec<Detail>, a: &AgentState)
    ensures
        facts(final(list)@) == facts(old(list)@) + vram_facts(a@),
{
    let ghost start = facts(list@);
    if ieee::lt_double(0, a.gpu_vram_total_mib) {
        let line = pieces::number(
            pieces::no_pieces(),
            Quantity::Gib(a.gpu_vram_used_mib),
            0,
            0,
        );
        let line = pieces::words(line, "/");
        let line = pieces::number(line, Quantity::Gib(a.gpu_vram_total_mib), 0, 0);
        let line = pieces::words(line, " GiB ");
        let share = Quantity::Share { part: a.gpu_vram_used_mib, whole: a.gpu_vram_total_mib };
        let line = pieces::number(line, share, 0, 0);
        let line = pieces::words(line, " %");
        assert(pieces::line(line@) =~= seq![
            pieces::round(Quantity::Gib(a.gpu_vram_used_mib)),
            Part::Words("/"@),
            pieces::round(Quantity::Gib(a.gpu_vram_total_mib)),
            Part::Words(" GiB "@),
            pieces::round(share),
            Part::Words(" %"@),
        ]);
        add_row(list, Icon::Vram, "GPU-VRAM", line);
    }
    assert(facts(list@) =~= start + vram_facts(a@));
}

fn add_gpu(list: &mut Vec<Detail>, a: &AgentState)
    ensures
        facts(final(list)@) == facts(old(list)@) + gpu_facts(a@),
{
    let ghost start = facts(list@);
    if !a.node.gpu_available {
        put(
            list,
            Detail::Caption(
                pieces::plain(
                    "Keine GPU-Werte: der Agent findet weder nvidia-smi noch eine GPU in /sys/class/drm.",
                ),
            ),
        );
        assert(facts(list@) =~= start + gpu_facts(a@));
        return ;
    }
    let name = if text::is_empty(a.gpu_name.as_str()) {
        text::copy("GPU")
    } else {
        text::copy(a.gpu_name.as_str())
    };
    let load = pieces::number(pieces::no_pieces(), Quantity::Single(a.node.gpu_util_pct), 0, 0);
    let load = pieces::words(load, " % · ");
    let load = pieces::number(load, Quantity::Single(a.node.gpu_power_w), 0, 0);
    let load = pieces::words(load, " W");
    assert(pieces::line(load@) =~= seq![
        pieces::single(a.node.gpu_util_pct, 0),
        Part::Words(" % · "@),
        pieces::single(a.node.gpu_power_w, 0),
        Part::Words(" W"@),
    ]);
    add_row(list, Icon::Gpu, name.as_str(), load);
    add_vram(list, a);
    let heat = pieces::number(pieces::no_pieces(), Quantity::Single(a.node.gpu_temp_c), 0, 0);
    let heat = pieces::words(heat, " °C · load ");
    let heat = pieces::number(heat, Quantity::Single(a.node.load1), 2, 0);
    assert(pieces::line(heat@) =~= seq![
        pieces::single(a.node.gpu_temp_c, 0),
        Part::Words(" °C · load "@),
        pieces::single(a.node.load1, 2),
    ]);
    add_row(list, Icon::Power, "GPU-Temperatur", heat);
    assert(facts(list@) =~= start + gpu_facts(a@));
}

// ---------------------------------------------------------------- details: clients

/// The name for an address: the configured one, or the address itself.
pub open spec fn client_name(names: Seq<(Seq<char>, Seq<char>)>, ip: Seq<char>) -> Seq<char>
    decreases names.len(),
{
    if names.len() == 0 {
        ip
    } else if names[0].0 == ip {
        names[0].1
    } else {
        client_name(names.drop_first(), ip)
    }
}

/// The line of one client.
pub open spec fn client_line(names: Seq<(Seq<char>, Seq<char>)>, c: Client) -> Seq<char> {
    "↳ "@ + client_name(names, c.ip) + (if c.count > 1 {
        " ×"@ + text::decimal(c.count as nat)
    } else {
        Seq::empty()
    })
}

/// The lines of all clients.
pub open spec fn client_lines(
    names: Seq<(Seq<char>, Seq<char>)>,
    clients: Seq<Client>,
) -> Seq<Fact> {
    clients.map_values(
        |c: Client| Fact::Caption(seq![Part::Words(client_line(names, c))]),
    )
}

/// The clients of a node's engine, where there are any or could be.
pub open spec fn client_facts(names: Seq<(Seq<char>, Seq<char>)>, a: Agent) -> Seq<Fact> {
    if a.client_port > 0 || a.clients.len() > 0 {
        seq![
            row(
                Icon::Gpu,
                "Clients an der Engine"@,
                seq![Part::Words(text::decimal(spark::client_sum_of(a.clients)))],
            ),
        ] + client_lines(names, a.clients)
    } else {
        Seq::empty()
    }
}

fn name_of(names: &Vec<(String, String)>, ip: &str) -> (r: String)
    ensures
        r@ == client_name(crate::config::names(names@), ip@),
{
    let ghost all = crate::config::names(names@);
    let mut i: usize = 0;
    assert(all.skip(0) =~= all);
    while i < names.len()
        invariant
            i <= names@.len(),
            all == crate::config::names(names@),
            client_name(all, ip@) == client_name(all.skip(i as int), ip@),
        decreases names@.len() - i,
    {
        assert(all.skip(i as int)[0] == (names@[i as int].0@, names@[i as int].1@));
        assert(all.skip(i as int).drop_first() =~= all.skip(i + 1));
        if text::same(names[i].0.as_str(), ip) {
            return text::copy(names[i].1.as_str());
        }
        i += 1;
    }
    text::copy(ip)
}

fn add_clients(list: &mut Vec<Detail>, names: &Vec<(String, String)>, a: &AgentState)
    requires
        spark::client_sum_of(a@.clients) <= u32::MAX,
    ensures
        facts(final(list)@) == facts(old(list)@) + client_facts(
            crate::config::names(names@),
            a@,
        ),
{
    let ghost start = facts(list@);
    let ghost known = crate::config::names(names@);
    assert(a@.clients.len() == a.clients@.len());
    if a.client_port == 0 && a.clients.len() == 0 {
        assert(facts(list@) =~= start + client_facts(known, a@));
        return ;
    }
    let total: u128 = spark::client_sum(&a.clients);
    let total = text::from_u64(total as u64);
    add_row(list, Icon::Gpu, "Clients an der Engine", pieces::plain(total.as_str()));
    let ghost head = facts(list@);
    let ghost lines = client_lines(known, a@.clients);
    let n: usize = a.clients.len();
    let mut i: usize = 0;
    assert(head + lines.take(0) =~= head);
    while i < n
        invariant
            i <= n == a.clients@.len(),
            known == crate::config::names(names@),
            lines == client_lines(known, a@.clients),
            a@.clients.len() == n,
            facts(list@) == head + lines.take(i as int),
        decreases n - i,
    {
        let client = &a.clients[i];
        assert(a@.clients[i as int] == client@);
        let name = name_of(names, client.ip.as_str());
        let words = text::cat2("↳ ", name.as_str());
        let words = if client.count > 1 {
            let count = text::from_u64(client.count as u64);
            let suffix = text::cat2(" ×", count.as_str());
            text::cat2(words.as_str(), suffix.as_str())
        } else {
            assert(words@ + Seq::<char>::empty() =~= words@);
            words
        };
        put(list, Detail::Caption(pieces::plain(words.as_str())));
        assert((head + lines.take(i as int)).push(lines[i as int]) =~= head + lines.take(i + 1));
        i += 1;
    }
    assert(lines.take(n as int) =~= lines);
    assert(facts(list@) =~= start + client_facts(known, a@));
}

// ---------------------------------------------------------------- nodes

/// The oldest age that is shown, in seconds: 9999.
pub const OLDEST: u32 = 0x461c_3c00;

/// The age that is shown of the last value.
pub open spec fn age_shown(bits: u32) -> u32 {
    if ieee::below(bits, OLDEST) {
        bits
    } else {
        OLDEST
    }
}

/// Everything below an unfolded node.
pub open spec fn node_facts(
    s: Snapshot,
    a: Agent,
    use_discovered: bool,
    names: Seq<(Seq<char>, Seq<char>)>,
) -> Seq<Fact> {
    if !a.online {
        seq![
            Fact::Caption(
                seq![
                    Part::Words("Keine Verbindung ("@ + a.status + "). Letzter Wert vor "@),
                    pieces::single(age_shown(a.age_s), 0),
                    Part::Words(" s."@),
                ],
            ),
        ]
    } else {
        engine_facts(s, a.engine) + (if use_discovered {
            endpoint_facts(a.engines)
        } else {
            Seq::empty()
        }) + machine_facts(a) + gpu_facts(a) + client_facts(names, a)
    }
}

/// One remote node: its summary, and its details where it is unfolded.
#[derive(Debug)]
pub struct RemoteNode {
    pub name: String,
    /// The configured target, by which it is folded and unfolded.
    pub label: String,
    pub open: bool,
    pub summary: Vec<Piece>,
    pub tone: Tone,
    pub details: Vec<Detail>,
}

/// Whether an entry shows a node.
pub open spec fn node_shown(
    node: RemoteNode,
    s: Snapshot,
    a: Agent,
    open: bool,
    use_discovered: bool,
    names: Seq<(Seq<char>, Seq<char>)>,
) -> bool {
    &&& node.name@ == spark::display_name_of(a)
    &&& node.label@ == a.label
    &&& node.open == open
    &&& pieces::line(node.summary@) == summary_of(a)
    &&& node.tone == tone_of(a)
    &&& facts(node.details@) == (if open {
        node_facts(s, a, use_discovered, names)
    } else {
        Seq::empty()
    })
}

fn node_details(
    s: &SparkSnapshot,
    a: &AgentState,
    use_discovered: bool,
    names: &Vec<(String, String)>,
) -> (r: Vec<Detail>)
    requires
        a@.online ==> spark::client_sum_of(a@.clients) <= u32::MAX,
    ensures
        facts(r@) == node_facts(s@, a@, use_discovered, crate::config::names(names@)),
{
    let mut list: Vec<Detail> = Vec::new();
    assert(facts(list@) =~= Seq::empty());
    let ghost known = crate::config::names(names@);
    if !a.online {
        let age: u32 = if ieee::lt(a.age_s, OLDEST) {
            a.age_s
        } else {
            OLDEST
        };
        let head = text::cat3(
            "Keine Verbindung (",
            a.status.as_str(),
            "). Letzter Wert vor ",
        );
        let line = pieces::words(pieces::no_pieces(), head.as_str());
        let line = pieces::number(line, Quantity::Single(age), 0, 0);
        let line = pieces::words(line, " s.");
        assert(pieces::line(line@) =~= seq![
            Part::Words("Keine Verbindung ("@ + a.status@ + "). Letzter Wert vor "@),
            pieces::single(age, 0),
            Part::Words(" s."@),
        ]);
        put(&mut list, Detail::Caption(line));
        assert(facts(list@) =~= node_facts(s@, a@, use_discovered, known));
        return list;
    }
    add_engine(&mut list, s, &a.engine);
    if use_discovered {
        add_endpoints(&mut list, &a.engines);
    }
    add_machine(&mut list, a);
    add_gpu(&mut list, a);
    add_clients(&mut list, names, a);
    assert(facts(list@) =~= node_facts(s@, a@, use_discovered, known));
    list
}

/// One remote node: a summary plus its details when unfolded.
pub fn remote_node(
    snapshot: &SparkSnapshot,
    agent: &AgentState,
    open: bool,
    use_discovered: bool,
    client_names: &Vec<(String, String)>,
) -> (r: RemoteNode)
    requires
        agent@.online ==> spark::client_sum_of(agent@.clients) <= u32::MAX,
    ensures
        node_shown(
            r,
            snapshot@,
            agent@,
            open,
            use_discovered,
            crate::config::names(client_names@),
        ),
{
    let hot = snapshot.node_is_hot(agent);
    let old = install::agent_version_state(agent.version.as_str()) == AgentVersionState::Outdated;
    let tone = if !agent.online {
        Tone::Bad
    } else if hot || old {
        Tone::Warn
    } else {
        Tone::Plain
    };
    let details = if open {
        node_details(snapshot, agent, use_discovered, client_names)
    } else {
        Vec::new()
    };
    assert(!open ==> facts(details@) =~= Seq::empty());
    RemoteNode {
        name: agent.display_name(),
        label: text::copy(agent.label.as_str()),
        open,
        summary: summary_pieces(agent, hot, old),
        tone,
        details,
    }
}

// ---------------------------------------------------------------- the section

/// The remote section: one entry per configured node.
#[derive(Debug)]
pub struct RemoteSection {
    pub detail: Vec<Piece>,
    /// Said in place of nodes.
    pub empty: Option<String>,
    /// How many updates there are.
    pub updates: Option<String>,
    pub warnings: Vec<Warning>,
    pub nodes: Vec<RemoteNode>,
}

/// The heading of the section.
pub open spec fn heading(s: Snapshot) -> Seq<Part> {
    if !s.enabled {
        seq![Part::Words("deaktiviert"@)]
    } else if s.agents.len() == 0 {
        seq![Part::Words("keine Knoten konfiguriert"@)]
    } else {
        let online = spark::count_where(s.agents, |a: Agent| a.online);
        let first = seq![
            Part::Words(
                text::decimal(online) + "/"@ + text::decimal(s.agents.len()) + " Agenten"@,
            ),
        ];
        let power = if spark::count_where(s.agents, |a: Agent| spark::has_gpu(a)) > 0 {
            pieces::continued(
                first,
                seq![Part::Total(spark::watts_of(s.agents)), Part::Words(" W GPU"@)],
            )
        } else {
            first
        };
        let clients = spark::connections(s.agents);
        if clients == 0 {
            power
        } else if clients == 1 {
            pieces::continued(power, seq![Part::Words("1 Client"@)])
        } else {
            pieces::continued(power, seq![Part::Words(text::decimal(clients) + " Clients"@)])
        }
    }
}

/// Whether there are nodes to show.
pub open spec fn populated(s: Snapshot) -> bool {
    s.enabled && s.agents.len() > 0
}

/// Whether a section shows the nodes of a snapshot.
pub open spec fn section_shown(
    section: RemoteSection,
    s: Snapshot,
    use_discovered: bool,
    names: Seq<(Seq<char>, Seq<char>)>,
    expanded: Seq<Seq<char>>,
) -> bool {
    let old = summary::outdated_in(s.agents).len();
    &&& pieces::line(section.detail@) == heading(s)
    &&& match section.empty {
        Some(note) => !populated(s) && note@ == (if !s.enabled {
            "Remote-Überwachung ist aus (SYSMON_SPARK_AGENTS=off)."@
        } else {
            "Über das ⋯-Menü einen Knoten eintragen oder installieren."@
        }),
        None => populated(s),
    }
    &&& match section.updates {
        Some(note) => populated(s) && old > 0 && note@ == text::decimal(old)
            + " Agent-Update(s) – in den Einstellungen"@,
        None => !populated(s) || old == 0,
    }
    &&& summary::alerts(section.warnings@) == (if populated(s) {
        summary::engine_alerts(s.agents) + summary::hot_alerts(s.agents)
    } else {
        Seq::empty()
    })
    &&& section.nodes@.len() == (if populated(s) {
        s.agents.len()
    } else {
        0
    })
    &&& forall|i: int|
        0 <= i < section.nodes@.len() ==> node_shown(
            #[trigger] section.nodes@[i],
            s,
            s.agents[i],
            expanded.contains(s.agents[i].label),
            use_discovered,
            names,
        )
}

fn heading_pieces(s: &SparkSnapshot) -> (r: Vec<Piece>)
    requires
        spark::connections(s@.agents) <= u32::MAX,
    ensures
        pieces::line(r@) == heading(s@),
{
    assert(s@.agents.len() == s.agents@.len());
    if !s.enabled {
        return pieces::plain("deaktiviert");
    }
    if s.agents.len() == 0 {
        return pieces::plain("keine Knoten konfiguriert");
    }
    let online = text::from_u64(s.online_count() as u64);
    let all = text::from_u64(s.agents.len() as u64);
    let head = text::cat4(online.as_str(), "/", all.as_str(), " Agenten");
    let line = pieces::plain(head.as_str());
    let line = if s.gpu_node_count() > 0 {
        let power = pieces::total(pieces::no_pieces(), s.gpu_watts());
        let power = pieces::words(power, " W GPU");
        assert(pieces::line(power@) =~= seq![
            Part::Total(spark::watts_of(s@.agents)),
            Part::Words(" W GPU"@),
        ]);
        pieces::append(line, power)
    } else {
        line
    };
    let clients: u32 = s.client_total();
    if clients == 0 {
        line
    } else if clients == 1 {
        pieces::append(line, pieces::plain("1 Client"))
    } else {
        let count = text::from_u64(clients as u64);
        let words = text::cat2(count.as_str(), " Clients");
        pieces::append(line, pieces::plain(words.as_str()))
    }
}

proof fn lemma_share_of_connections(agents: Seq<Agent>, i: int)
    requires
        0 <= i < agents.len(),
    ensures
        agents[i].online ==> spark::client_sum_of(agents[i].clients) <= spark::connections(agents),
    decreases agents.len(),
{
    if i < agents.len() - 1 {
        lemma_share_of_connections(agents.drop_last(), i);
    }
}

fn remote_nodes(
    s: &SparkSnapshot,
    use_discovered: bool,
    names: &Vec<(String, String)>,
    expanded: &Vec<String>,
) -> (r: Vec<RemoteNode>)
    requires
        spark::connections(s@.agents) <= u32::MAX,
    ensures
        r@.len() == s@.agents.len(),
        forall|i: int|
            0 <= i < r@.len() ==> node_shown(
                #[trigger] r@[i],
                s@,
                s@.agents[i],
                text::views(expanded@).contains(s@.agents[i].label),
                use_discovered,
                crate::config::names(names@),
            ),
{
    let mut out: Vec<RemoteNode> = Vec::new();
    let n: usize = s.agents.len();
    assert(s@.agents.len() == n);
    let mut i: usize = 0;
    while i < n
        invariant
            i <= n == s.agents@.len(),
            s@.agents.len() == n,
            spark::connections(s@.agents) <= u32::MAX,
            out@.len() == i,
            forall|k: int|
                0 <= k < i ==> node_shown(
                    #[trigger] out@[k],
                    s@,
                    s@.agents[k],
                    text::views(expanded@).contains(s@.agents[k].label),
                    use_discovered,
                    crate::config::names(names@),
                ),
        decreases n - i,
    {
        let agent = &s.agents[i];
        assert(s@.agents[i as int] == agent@);
        proof {
            lemma_share_of_connections(s@.agents, i as int);
        }
        let open = text::holds(expanded, agent.label.as_str());
        out.push(remote_node(s, agent, open, use_discovered, names));
        i += 1;
    }
    out
}

/// Remote section: one collapsible entry per configured node.
///
/// The summary carries the key figures; unfolding shows the details.
pub fn remote_section(
    snapshot: &SparkSnapshot,
    use_discovered: bool,
    client_names: &Vec<(String, String)>,
    expanded: &Vec<String>,
) -> (r: RemoteSection)
    requires
        spark::connections(snapshot@.agents) <= u32::MAX,
    ensures
        section_shown(
            r,
            snapshot@,
            use_discovered,
            crate::config::names(client_names@),
            text::views(expanded@),
        ),
{
    let detail = heading_pieces(snapshot);
    assert(snapshot@.agents.len() == snapshot.agents@.len());
    if !snapshot.enabled || snapshot.agents.len() == 0 {
        let empty = if !snapshot.enabled {
            text::copy("Remote-Überwachung ist aus (SYSMON_SPARK_AGENTS=off).")
        } else {
            text::copy("Über das ⋯-Menü einen Knoten eintragen oder installieren.")
        };
        let warnings: Vec<Warning> = Vec::new();
        assert(summary::alerts(warnings@) =~= Seq::empty());
        return RemoteSection {
            detail,
            empty: Some(empty),
            updates: None,
            warnings,
            nodes: Vec::new(),
        };
    }
    let old = snapshot.outdated_agents();
    assert(summary::outdated_views(old@).len() == old@.len());
    let updates = if old.len() > 0 {
        let count = text::from_u64(old.len() as u64);
        Some(text::cat2(count.as_str(), " Agent-Update(s) – in den Einstellungen"))
    } else {
        None
    };
    RemoteSection {
        detail,
        empty: None,
        updates,
        warnings: snapshot.warnings(),
        nodes: remote_nodes(snapshot, use_discovered, client_names, expanded),
    }
}

/// A node that is not reachable is bad; one that is hot or out of date gives
/// reason to look; any other is plain.
pub proof fn tones_tell_what_matters(a: Agent)
    ensures
        ({
            let hot = a.node.gpu_available && ieee::below(0x42a0_0000, a.node.gpu_temp_c);
            let old = install::version_state(a.version, "2.2.0\n"@) is Outdated;
            &&& tone_of(a) == Tone::Bad <==> !a.online
            &&& tone_of(a) == Tone::Warn <==> a.online && (hot || old)
            &&& tone_of(a) == Tone::Plain <==> a.online && !hot && !old
        }),
{
}

/// A node that is not reachable says so, with the reason; an older agent is named
/// with its version, at the end.
pub proof fn summaries_of_silent_nodes(a: Agent)
    requires
        !a.online,
    ensures
        ({
            let old = install::version_state(a.version, "2.2.0\n"@) is Outdated;
            let words = if a.status.len() == 0 {
                "offline"@
            } else {
                "offline · "@ + a.status
            };
            &&& !old ==> summary_of(a) == seq![Part::Words(words)]
            &&& old ==> summary_of(a) == seq![
                Part::Words(words),
                Part::Words(" · "@),
                Part::Words("Agent "@ + a.version),
            ]
        }),
{
    let old = install::version_state(a.version, "2.2.0\n"@) is Outdated;
    let words = if a.status.len() == 0 {
        "offline"@
    } else {
        "offline · "@ + a.status
    };
    if old {
        assert(summary_of(a) =~= seq![
            Part::Words(words),
            Part::Words(" · "@),
            Part::Words("Agent "@ + a.version),
        ]);
    }
}

/// A node with an engine shows its generation rate and its cache usage.
pub proof fn summaries_of_engines(a: Agent)
    requires
        a.engine.available,
    ensures
        engine_summary(a).len() == 5,
        engine_summary(a)[1] == (Part::Number {
            value: Quantity::Single(a.engine.gen_tok_s),
            decimals: 1,
            width: 0,
        }),
        engine_summary(a)[2] == Part::Words(" tok/s · KV "@),
        engine_summary(a)[3] == (Part::Number {
            value: Quantity::Single(a.engine.kv_cache_pct),
            decimals: 0,
            width: 0,
        }),
        engine_summary(a)[4] == Part::Words(" %"@),
        a.engines.len() == 0 ==> engine_summary(a)[0] == Part::Words("Engine"@ + " · "@),
        a.engines.len() > 0 && a.engines[0].has_metrics ==> engine_summary(a)[0] == Part::Words(
            a.engines[0].kind + ":"@ + text::decimal(a.engines[0].port as nat) + " · "@,
        ),
{
}

/// A node without engine values shows its first server, or that it has none.
pub proof fn summaries_without_engines(a: Agent)
    requires
        !a.engine.available,
    ensures
        a.engines.len() > 0 ==> engine_summary(a) == seq![
            Part::Words(
                a.engines[0].kind + ":"@ + text::decimal(a.engines[0].port as nat) + " · "@
                    + model_words(a.engines[0]),
            ),
        ],
        a.engines.len() == 0 && a.engine.reason == "no-endpoint"@ ==> engine_summary(a) == seq![
            Part::Words("kein lokaler LLM-Endpunkt"@),
        ],
        a.engines.len() == 0 && a.engine.reason != "no-endpoint"@ ==> engine_summary(a).len() == 0,
{
}

/// A reachable node shows the power of its graphics card, and its temperature
/// where it is hot, behind what is said of the engine.
pub proof fn summaries_of_cards(a: Agent)
    ensures
        ({
            let engine = engine_summary(a);
            let watts = seq![
                Part::Number {
                    value: Quantity::Single(a.node.gpu_power_w),
                    decimals: 0,
                    width: 0,
                },
                Part::Words(" W"@),
            ];
            let power = if a.node.gpu_available {
                pieces::continued(engine, watts)
            } else {
                engine
            };
            &&& !spark::is_hot(a) ==> online_summary(a) == power
            &&& spark::is_hot(a) ==> online_summary(a) == pieces::continued(
                power,
                seq![
                    Part::Words("GPU "@),
                    Part::Number {
                        value: Quantity::Single(a.node.gpu_temp_c),
                        decimals: 0,
                        width: 0,
                    },
                    Part::Words(" °C"@),
                ],
            )
        }),
{
}

/// The engine that speaks is the first with metrics, else the first.
pub proof fn engines_with_metrics_speak(engines: Seq<Engine>, k: int)
    requires
        0 <= k < engines.len(),
        engines[k].has_metrics,
        forall|j: int| 0 <= j < k ==> !(#[trigger] engines[j]).has_metrics,
    ensures
        speaking(engines) == Some(engines[k]),
    decreases k,
{
    lemma_first_with_metrics(engines, k);
}

proof fn lemma_first_with_metrics(engines: Seq<Engine>, k: int)
    requires
        0 <= k < engines.len(),
        engines[k].has_metrics,
        forall|j: int| 0 <= j < k ==> !(#[trigger] engines[j]).has_metrics,
    ensures
        with_metrics(engines) == Some(engines[k]),
    decreases k,
{
    if k > 0 {
        let rest = engines.drop_first();
        assert(!engines[0].has_metrics);
        assert forall|j: int| 0 <= j < k - 1 implies !(#[trigger] rest[j]).has_metrics by {
            assert(rest[j] == engines[j + 1]);
        }
        lemma_first_with_metrics(rest, k - 1);
    }
}

/// Each engine value stands behind its own name.
pub proof fn engine_values_stand_behind_their_names(m: spark::Metrics)
    ensures
        ({
            let f = value_facts(m);
            let one = |v: u32| Part::Number { value: Quantity::Single(v), decimals: 1, width: 0 };
            let none = |v: u32| Part::Number { value: Quantity::Single(v), decimals: 0, width: 0 };
            &&& f.len() == 5
            &&& f[0] == (Fact::Row {
                icon: Icon::Spark,
                label: "Modell"@,
                value: seq![Part::Words(m.model)],
            })
            &&& f[1] == (Fact::Row {
                icon: Icon::Power,
                label: "Token-Rate"@,
                value: seq![
                    one(m.gen_tok_s),
                    Part::Words("/"@),
                    one(m.prompt_tok_s),
                    Part::Words(" tok/s"@),
                ],
            })
            &&& f[2] == (Fact::Row {
                icon: Icon::Cpu,
                label: "TTFT (Ø)"@,
                value: seq![none(m.ttft_ms), Part::Words(" ms"@)],
            })
            &&& f[3] == (Fact::Row {
                icon: Icon::Vram,
                label: "KV-Cache"@,
                value: seq![one(m.kv_cache_pct), Part::Words(" %"@)],
            })
            &&& f[4] == (Fact::Row {
                icon: Icon::Gpu,
                label: "Anfragen"@,
                value: seq![
                    Part::Words(
                        text::decimal(m.running as nat) + " aktiv · "@ + text::decimal(
                            m.waiting as nat,
                        ) + " wartend"@,
                    ),
                ],
            })
        }),
{
}

/// Speculation is shown where it is known, preemptions where there were some, and
/// a chart where there are two values to draw.
pub proof fn special_values_are_shown(m: spark::Metrics, s: Snapshot)
    ensures
        m.spec_accept_pct is None && m.preemptions_total == 0 ==> special_facts(m).len() == 0,
        m.spec_accept_pct matches Some(v) ==> special_facts(m).len() > 0 && special_facts(m)[0] == (
        Fact::Row {
            icon: Icon::Gpu,
            label: "Spekulation"@,
            value: seq![
                Part::Number { value: Quantity::Single(v), decimals: 0, width: 0 },
                Part::Words(" % akzeptiert"@),
            ],
        }),
        m.preemptions_total > 0 ==> special_facts(m).len() > 0 && special_facts(m).last() == (
        Fact::Worry {
            icon: Icon::Power,
            label: "Präemptionen"@,
            value: text::decimal(m.preemptions_total as nat),
        }),
        chart_facts(s).contains(Fact::TokenChart) <==> s.gen_tok_s.len() >= 2,
        chart_facts(s).contains(Fact::CacheChart) <==> s.kv_pct.len() >= 2,
{
    let c = chart_facts(s);
    if s.gen_tok_s.len() >= 2 {
        assert(c[0] == Fact::TokenChart);
    }
    if s.kv_pct.len() >= 2 {
        assert(c.last() == Fact::CacheChart);
    }
}

/// Without an engine the reason is told: a node without an endpoint, or the error.
pub proof fn missing_engines_are_explained(s: Snapshot, m: spark::Metrics)
    requires
        !m.available,
    ensures
        m.reason == "no-endpoint"@ ==> engine_facts(s, m) == seq![
            Fact::Caption(
                seq![
                    Part::Words(
                        "Kein lokaler vLLM-Endpunkt auf diesem Rechner (headless Rank)."@,
                    ),
                ],
            ),
        ],
        m.reason != "no-endpoint"@ ==> (m.error matches Some(e) ==> (e.len() > 0 ==> engine_facts(
            s,
            m,
        ) == seq![Fact::Colored(e, Tone::Bad)])),
        m.reason != "no-endpoint"@ && m.error is None ==> engine_facts(s, m).len() == 0,
{
}

/// A server is shown with its port, its kind, the number of its models and
/// whether it has metrics; what it has loaded follows.
pub proof fn servers_are_shown(e: Engine, engines: Seq<Engine>)
    ensures
        endpoint_of(e)[0] == (Fact::Endpoint {
            port: e.port,
            kind: e.kind,
            models: text::decimal(e.model_count as nat) + " Modelle"@ + (if e.has_metrics {
                " · Metriken"@
            } else {
                Seq::empty()
            }),
        }),
        e.loaded.len() == 0 ==> endpoint_of(e).len() == 1,
        e.loaded.len() > 0 ==> endpoint_of(e).len() == 2 && endpoint_of(e)[1] == Fact::Caption(
            seq![Part::Words("geladen: "@ + text::joined(e.loaded, ", "@))],
        ),
        endpoint_facts(engines.push(e)) == endpoint_facts(engines) + endpoint_of(e),
        endpoint_facts(Seq::empty()).len() == 0,
{
    assert(engines.push(e).drop_last() =~= engines);
}

/// Processor and memory of a node stand behind their names.
pub proof fn machine_values_stand_behind_their_names(a: Agent)
    ensures
        ({
            let f = machine_facts(a);
            let none = |v: u32| Part::Number { value: Quantity::Single(v), decimals: 0, width: 0 };
            &&& f.len() == 2
            &&& f[0] == (Fact::Row {
                icon: Icon::Cpu,
                label: if a.cpu_model.len() == 0 {
                    "CPU"@
                } else {
                    layout::compact_cpu(a.cpu_model)
                },
                value: seq![
                    Part::Words(text::decimal(a.node.cpu_count as nat) + " Kerne · "@),
                    none(a.node.cpu_pct),
                    Part::Words(" %"@),
                ],
            })
            &&& f[1] == (Fact::Row {
                icon: Icon::Ram,
                label: "Arbeitsspeicher"@,
                value: seq![
                    none(a.node.mem_used_gib),
                    Part::Words("/"@),
                    none(a.node.mem_total_gib),
                    Part::Words(" GiB "@),
                    none(a.node.mem_pct),
                    Part::Words(" %"@),
                ],
            })
        }),
{
}

/// The graphics card of a node: utilization and power, memory where it is known,
/// temperature and load; or that there is none.
pub proof fn card_values_stand_behind_their_names(a: Agent)
    requires
        a.node.gpu_available,
    ensures
        ({
            let f = gpu_facts(a);
            let none = |v: u32| Part::Number { value: Quantity::Single(v), decimals: 0, width: 0 };
            let known = ieee::below_double(0, a.gpu_vram_total_mib);
            &&& f.len() == if known {
                3nat
            } else {
                2nat
            }
            &&& f[0] == (Fact::Row {
                icon: Icon::Gpu,
                label: if a.gpu_name.len() == 0 {
                    "GPU"@
                } else {
                    a.gpu_name
                },
                value: seq![
                    none(a.node.gpu_util_pct),
                    Part::Words(" % · "@),
                    none(a.node.gpu_power_w),
                    Part::Words(" W"@),
                ],
            })
            &&& f.last() == (Fact::Row {
                icon: Icon::Power,
                label: "GPU-Temperatur"@,
                value: seq![
                    none(a.node.gpu_temp_c),
                    Part::Words(" °C · load "@),
                    Part::Number { value: Quantity::Single(a.node.load1), decimals: 2, width: 0 },
                ],
            })
            &&& known ==> f[1] == (Fact::Row {
                icon: Icon::Vram,
                label: "GPU-VRAM"@,
                value: seq![
                    pieces::round(Quantity::Gib(a.gpu_vram_used_mib)),
                    Part::Words("/"@),
                    pieces::round(Quantity::Gib(a.gpu_vram_total_mib)),
                    Part::Words(" GiB "@),
                    pieces::round(
                        Quantity::Share {
                            part: a.gpu_vram_used_mib,
                            whole: a.gpu_vram_total_mib,
                        },
                    ),
                    Part::Words(" %"@),
                ],
            })
        }),
{
}

/// A client is called by the first name that was given to its address, else by
/// its address; several connections are counted.
pub proof fn clients_are_called_by_name(names: Seq<(Seq<char>, Seq<char>)>, ip: Seq<char>, name: Seq<char>, other: Seq<char>, count: u32)
    requires
        other != ip,
    ensures
        client_name(seq![(ip, name)] + names, ip) == name,
        client_name(seq![(ip, name)] + names, other) == client_name(names, other),
        client_name(Seq::empty(), ip) == ip,
        count > 1 ==> client_line(names, Client { ip, count }) == "↳ "@ + client_name(names, ip) + (
        " ×"@ + text::decimal(count as nat)),
        count <= 1 ==> client_line(names, Client { ip, count }) == "↳ "@ + client_name(names, ip),
{
    let all = seq![(ip, name)] + names;
    assert(all[0] == (ip, name));
    assert(all.drop_first() =~= names);
    if count <= 1 {
        assert(client_line(names, Client { ip, count }) =~= "↳ "@ + client_name(names, ip));
    }
}

/// The clients of a node are counted together and listed one by one.
pub proof fn clients_are_counted(names: Seq<(Seq<char>, Seq<char>)>, a: Agent, i: int)
    requires
        0 <= i < a.clients.len(),
    ensures
        client_facts(names, a).len() == a.clients.len() + 1,
        client_facts(names, a)[0] == (Fact::Row {
            icon: Icon::Gpu,
            label: "Clients an der Engine"@,
            value: seq![Part::Words(text::decimal(spark::client_sum_of(a.clients)))],
        }),
        client_facts(names, a)[i + 1] == Fact::Caption(
            seq![Part::Words(client_line(names, a.clients[i]))],
        ),
{
}

/// An unfolded node that is not reachable tells why, and how old its last value
/// is, up to 9999 seconds.
pub proof fn silent_nodes_tell_their_age(
    s: Snapshot,
    a: Agent,
    use_discovered: bool,
    names: Seq<(Seq<char>, Seq<char>)>,
)
    requires
        !a.online,
    ensures
        ({
            let shown = if ieee::below(a.age_s, 0x461c_3c00) {
                a.age_s
            } else {
                0x461c_3c00
            };
            node_facts(s, a, use_discovered, names) == seq![
                Fact::Caption(
                    seq![
                        Part::Words("Keine Verbindung ("@ + a.status + "). Letzter Wert vor "@),
                        Part::Number { value: Quantity::Single(shown), decimals: 0, width: 0 },
                        Part::Words(" s."@),
                    ],
                ),
            ]
        }),
{
}

/// An unfolded node that is reachable shows its engine, its servers where they
/// are wanted, its machine, its graphics card and its clients, in this order.
pub proof fn reachable_nodes_show_everything(
    s: Snapshot,
    a: Agent,
    names: Seq<(Seq<char>, Seq<char>)>,
)
    requires
        a.online,
    ensures
        node_facts(s, a, true, names) == engine_facts(s, a.engine) + endpoint_facts(a.engines)
            + machine_facts(a) + gpu_facts(a) + client_facts(names, a),
        node_facts(s, a, false, names) == engine_facts(s, a.engine) + machine_facts(a) + gpu_facts(
            a,
        ) + client_facts(names, a),
        a.engine.available ==> engine_facts(s, a.engine) == value_facts(a.engine) + special_facts(
            a.engine,
        ) + chart_facts(s),
{
    assert(node_facts(s, a, false, names) =~= engine_facts(s, a.engine) + machine_facts(a)
        + gpu_facts(a) + client_facts(names, a));
}

/// The heading counts the nodes that are online, adds up the power where a
/// graphics card reports, and counts the clients where there are any.
pub proof fn headings_count_the_nodes(s: Snapshot)
    ensures
        !s.enabled ==> heading(s) == seq![Part::Words("deaktiviert"@)],
        s.enabled && s.agents.len() == 0 ==> heading(s) == seq![
            Part::Words("keine Knoten konfiguriert"@),
        ],
        s.enabled && s.agents.len() > 0 ==> {
            let online = s.agents.filter(|a: Agent| a.online).len();
            &&& heading(s)[0] == Part::Words(
                text::decimal(online) + "/"@ + text::decimal(s.agents.len()) + " Agenten"@,
            )
            &&& s.agents.filter(|a: Agent| a.online && a.node.gpu_available).len() > 0 ==> heading(
                s,
            )[2] == Part::Total(spark::watts_of(s.agents))
            &&& spark::connections(s.agents) == 1 ==> heading(s).last() == Part::Words("1 Client"@)
            &&& spark::connections(s.agents) > 1 ==> heading(s).last() == Part::Words(
                text::decimal(spark::connections(s.agents)) + " Clients"@,
            )
        },
{
    if s.enabled && s.agents.len() > 0 {
        let f = |a: Agent| a.online;
        let g = |a: Agent| spark::has_gpu(a);
        spark::counting_is_filtering(s.agents, f);
        spark::counting_is_filtering(s.agents, g);
        assert(g =~= (|a: Agent| a.online && a.node.gpu_available));
    }
}

/// A section without nodes says why; one with nodes has an entry for each, in
/// order, unfolded where it was unfolded, tells how many updates there are, and
/// shows the warnings.
pub proof fn sections_show_every_node(
    section: RemoteSection,
    s: Snapshot,
    use_discovered: bool,
    names: Seq<(Seq<char>, Seq<char>)>,
    expanded: Seq<Seq<char>>,
    i: int,
)
    requires
        section_shown(section, s, use_discovered, names, expanded),
    ensures
        !s.enabled || s.agents.len() == 0 <==> section.empty is Some,
        !s.enabled ==> section.empty->0@ == "Remote-Überwachung ist aus (SYSMON_SPARK_AGENTS=off)."@,
        s.enabled && s.agents.len() == 0 ==> section.empty->0@
            == "Über das ⋯-Menü einen Knoten eintragen oder installieren."@,
        s.enabled ==> section.nodes@.len() == s.agents.len(),
        !s.enabled ==> section.nodes@.len() == 0,
        section.updates is Some <==> s.enabled && s.agents.len() > 0 && summary::outdated_in(
            s.agents,
        ).len() > 0,
        s.enabled && s.agents.len() > 0 ==> summary::alerts(section.warnings@)
            == summary::engine_alerts(s.agents) + summary::hot_alerts(s.agents),
        0 <= i < section.nodes@.len() ==> {
            let node = section.nodes@[i];
            &&& node.name@ == spark::display_name_of(s.agents[i])
            &&& node.label@ == s.agents[i].label
            &&& node.open <==> expanded.contains(s.agents[i].label)
            &&& pieces::line(node.summary@) == summary_of(s.agents[i])
            &&& node.tone == tone_of(s.agents[i])
            &&& node.open ==> facts(node.details@) == node_facts(
                s,
                s.agents[i],
                use_discovered,
                names,
            )
            &&& !node.open ==> node.details@.len() == 0
        },
{
    if 0 <= i < section.nodes@.len() {
        assert(node_shown(
            section.nodes@[i],
            s,
            s.agents[i],
            expanded.contains(s.agents[i].label),
            use_discovered,
            names,
        ));
        assert(facts(section.nodes@[i].details@).len() == section.nodes@[i].details@.len());
    }
}

/// Ages are shown up to 9999 seconds: a smaller one as it is, a larger one as that.
pub proof fn ages_stop_at_a_limit(bits: u32)
    ensures
        ({
            let limit = ieee::narrow(ieee::double_of(9999));
            &&& ieee::below(bits, limit) ==> age_shown(bits) == bits
            &&& !ieee::below(bits, limit) ==> age_shown(bits) == limit
        }),
{
    reveal_with_fuel(ieee::top, 15);
    ieee::lemma_two_more();
    reveal_with_fuel(ieee::two, 8);
    assert(ieee::two(46) == 128 * ieee::two(39));
    assert(ieee::top(9999) == 13);
}

} // verus!
