//! What the applet and the node agent say to each other: every request is
//! understood as it was meant, and every reply as well.
use crate::commands;
use crate::commands::{Order, Row};
use crate::engines;
use crate::engines::Server;
use crate::ieee;
use crate::json;
use crate::json::Doc;
use crate::link;
use crate::procs;
use crate::snapshot;
use crate::snapshot::{Gpu, Llm, Machine, Whole};
use crate::spark;
use crate::text;
use vstd::prelude::*;

verus! {

/// The agent understands a request for the process list.
pub proof fn list_requests_are_understood()
    ensures
        commands::order_in(procs::list_request_doc()) == (Order::Processes {
            limit: procs::REMOTE_LIMIT,
        }),
{
    reveal_strlit("action");
    reveal_strlit("limit");
    reveal_strlit("processes");
    reveal_strlit("ping");
    let m = procs::list_request_doc()->Object_0;
    reveal_with_fuel(json::lookup, 3);
    assert("action"@.len() == 6 && "limit"@.len() == 5);
    assert("processes"@.len() == 9 && "ping"@.len() == 4);
    assert(m.drop_first()[0] == m[1]);
}

/// The agent understands a request to signal a process: the same process and
/// the same signal.
pub proof fn kill_requests_are_understood(pid: u32, signal: i32)
    ensures
        commands::order_in(procs::kill_request_doc(pid, signal)) == (Order::Kill {
            pid: pid as i64,
            signal: signal as i64,
        }),
{
    reveal_strlit("action");
    reveal_strlit("pid");
    reveal_strlit("signal");
    reveal_strlit("processes");
    reveal_strlit("ping");
    reveal_strlit("kill");
    let m = procs::kill_request_doc(pid, signal)->Object_0;
    reveal_with_fuel(json::lookup, 4);
    assert("action"@.len() == 6 && "pid"@.len() == 3 && "signal"@.len() == 6);
    assert("action"@[0] == 'a' && "signal"@[0] == 's');
    assert("processes"@.len() == 9 && "ping"@.len() == 4 && "kill"@.len() == 4);
    assert("ping"@[0] == 'p' && "kill"@[0] == 'k');
    assert(m.drop_first()[0] == m[1]);
    assert(m.drop_first().drop_first()[0] == m[2]);
}

/// The agent understands a request to load a model: the same port and model.
pub proof fn load_requests_are_understood(port: u16, model: Seq<char>)
    ensures
        commands::order_in(link::load_request_doc(port, model)) == (Order::LoadModel {
            port,
            model,
        }),
{
    reveal_strlit("action");
    reveal_strlit("model");
    reveal_strlit("port");
    reveal_strlit("processes");
    reveal_strlit("ping");
    reveal_strlit("kill");
    reveal_strlit("load_model");
    let m = link::load_request_doc(port, model)->Object_0;
    reveal_with_fuel(json::lookup, 4);
    assert("action"@.len() == 6 && "model"@.len() == 5 && "port"@.len() == 4);
    assert("processes"@.len() == 9 && "ping"@.len() == 4 && "kill"@.len() == 4);
    assert("load_model"@.len() == 10);
    assert(m.drop_first()[0] == m[1]);
    assert(m.drop_first().drop_first()[0] == m[2]);
}

/// The applet understands the reply to a signal: a signal that was sent is
/// confirmed, and an error comes through word for word.
pub proof fn kill_replies_are_understood(pid: u32, signal: i32, error: Option<Seq<char>>)
    ensures
        ({
            let doc = commands::kill_doc(pid as i64, signal as i64, error);
            &&& link::is_reply(doc, "kill"@)
            &&& procs::killed(doc) == match error {
                Some(e) => Err(e),
                None => Ok(
                    procs::sent_text(
                        signal as int,
                        procs::signal_word(signal as int),
                        pid as nat,
                    ),
                ),
            }
        }),
{
    reveal_strlit("action");
    reveal_strlit("error");
    reveal_strlit("ok");
    reveal_strlit("pid");
    reveal_strlit("signal");
    let m = commands::kill_doc(pid as i64, signal as i64, error)->Object_0;
    reveal_with_fuel(json::lookup, 6);
    assert("action"@.len() == 6 && "error"@.len() == 5 && "ok"@.len() == 2);
    assert("pid"@.len() == 3 && "signal"@.len() == 6);
    assert("action"@[0] == 'a' && "signal"@[0] == 's');
    assert(m.drop_first()[0] == m[1]);
    assert(m.drop_first().drop_first()[0] == m[2]);
    assert(m.drop_first().drop_first().drop_first()[0] == m[3]);
    if error is Some {
        assert(m.drop_first().drop_first().drop_first().drop_first()[0] == m[4]);
    }
}

/// The row that the applet makes of a row of the agent: the share of the
/// processor is rounded to single precision.
pub open spec fn carried(row: Row) -> procs::Process {
    procs::Process {
        pid: row.pid,
        ppid: row.ppid,
        name: row.name,
        user: row.user,
        cpu: ieee::narrow(row.cpu),
        mem_kb: row.mem_kb,
        state: row.state,
        cmd: row.cmd,
    }
}

proof fn lemma_row(row: Row)
    ensures
        procs::entry_in(commands::row_doc(row)) == Some(carried(row)),
{
    reveal_strlit("cmd");
    reveal_strlit("cpu");
    reveal_strlit("mem_kb");
    reveal_strlit("name");
    reveal_strlit("pid");
    reveal_strlit("ppid");
    reveal_strlit("state");
    reveal_strlit("user");
    let m = commands::row_doc(row)->Object_0;
    assert(text::before("cmd"@, "cpu"@)) by {
        reveal_with_fuel(text::before, 3);
    }
    assert(text::before("pid"@, "ppid"@)) by {
        reveal_with_fuel(text::before, 3);
    }
    assert forall|i: int, j: int| 0 <= i < j < m.len() implies text::before(
        (#[trigger] m[i]).0,
        (#[trigger] m[j]).0,
    ) by {
        let a = m[i].0;
        let b = m[j].0;
        assert(a.len() > 0 && b.len() > 0);
        assert(i <= 1 ==> a[0] == 'c');
        assert(j == 1 ==> b[0] == 'c');
        assert((i == 2 ==> a[0] == 'm') && (j == 2 ==> b[0] == 'm'));
        assert((i == 3 ==> a[0] == 'n') && (j == 3 ==> b[0] == 'n'));
        assert((4 <= i <= 5 ==> a[0] == 'p') && (4 <= j <= 5 ==> b[0] == 'p'));
        assert((i == 6 ==> a[0] == 's') && (j == 6 ==> b[0] == 's'));
        assert(j == 7 ==> b[0] == 'u');
    }
    json::lemma_lookup(m, 0);
    json::lemma_lookup(m, 1);
    json::lemma_lookup(m, 2);
    json::lemma_lookup(m, 3);
    json::lemma_lookup(m, 4);
    json::lemma_lookup(m, 5);
    json::lemma_lookup(m, 6);
    json::lemma_lookup(m, 7);
}

proof fn lemma_rows(rows: Seq<Row>)
    ensures
        procs::entries_in(rows.map_values(|r: Row| commands::row_doc(r))) == rows.map_values(
            |r: Row| carried(r),
        ),
    decreases rows.len(),
{
    let docs = rows.map_values(|r: Row| commands::row_doc(r));
    if rows.len() > 0 {
        let shorter = rows.drop_last();
        lemma_rows(shorter);
        lemma_row(rows.last());
        assert(docs.drop_last() =~= shorter.map_values(|r: Row| commands::row_doc(r)));
        assert(shorter.map_values(|r: Row| carried(r)).push(carried(rows.last()))
            =~= rows.map_values(|r: Row| carried(r)));
    } else {
        assert(procs::entries_in(docs) =~= rows.map_values(|r: Row| carried(r)));
    }
}

/// The applet understands the process list of the agent: the same rows in the
/// same order, and the same counters.
pub proof fn process_lists_are_understood(list: Seq<Row>, limit: usize, cores: usize, ts: u64)
    requires
        list.len() <= usize::MAX,
    ensures
        ({
            let doc = commands::processes_doc(list, limit, cores, ts);
            &&& link::is_reply(doc, "processes"@)
            &&& procs::listing_in(doc) == Ok::<procs::Listing, Seq<char>>(
                procs::Listing {
                    entries: commands::shown_rows(list, limit).map_values(|r: Row| carried(r)),
                    total: list.len() as usize,
                    cores,
                    error: None,
                },
            )
        }),
{
    reveal_strlit("action");
    reveal_strlit("cores");
    reveal_strlit("ok");
    reveal_strlit("processes");
    reveal_strlit("total");
    reveal_strlit("ts");
    let doc = commands::processes_doc(list, limit, cores, ts);
    let m = doc->Object_0;
    assert(text::before("total"@, "ts"@)) by {
        reveal_with_fuel(text::before, 3);
    }
    assert forall|i: int, j: int| 0 <= i < j < m.len() implies text::before(
        (#[trigger] m[i]).0,
        (#[trigger] m[j]).0,
    ) by {
        let a = m[i].0;
        let b = m[j].0;
        assert(a.len() > 0 && b.len() > 0);
        assert(i == 0 ==> a[0] == 'a');
        assert((i == 1 ==> a[0] == 'c') && (j == 1 ==> b[0] == 'c'));
        assert((i == 2 ==> a[0] == 'o') && (j == 2 ==> b[0] == 'o'));
        assert((i == 3 ==> a[0] == 'p') && (j == 3 ==> b[0] == 'p'));
        assert((4 <= i ==> a[0] == 't') && (4 <= j ==> b[0] == 't'));
    }
    json::lemma_lookup(m, 0);
    json::lemma_lookup(m, 1);
    json::lemma_lookup(m, 2);
    json::lemma_lookup(m, 3);
    json::lemma_lookup(m, 4);
    lemma_rows(commands::shown_rows(list, limit));
}

/// The applet understands what came of loading a model: where Ollama reported
/// no error, the models it has in memory are named.
pub proof fn load_replies_are_understood(
    model: Seq<char>,
    response: Option<Doc>,
    loaded: Seq<Seq<char>>,
)
    ensures
        ({
            let doc = engines::load_answer(model, response, loaded);
            let names = text::joined(loaded, ", "@);
            &&& link::is_reply(doc, "load_model"@)
            &&& response is None ==> link::loaded(doc, model) == Err::<Seq<char>, Seq<char>>(
                "keine Antwort vom Ollama-Endpunkt"@,
            )
            &&& (response matches Some(d) && json::text_of(json::member(d, "error"@)) is None)
                ==> link::loaded(doc, model) == (if names.len() == 0 {
                Ok::<Seq<char>, Seq<char>>(model + " geladen"@)
            } else {
                Ok::<Seq<char>, Seq<char>>(model + " geladen (aktiv: "@ + names + ")"@)
            })
        }),
{
    reveal_strlit("action");
    reveal_strlit("error");
    reveal_strlit("loaded");
    reveal_strlit("model");
    reveal_strlit("ok");
    let m = engines::load_answer(model, response, loaded)->Object_0;
    reveal_with_fuel(json::lookup, 5);
    assert("action"@.len() == 6 && "error"@.len() == 5 && "loaded"@.len() == 6);
    assert("model"@.len() == 5 && "ok"@.len() == 2);
    assert("action"@[0] == 'a' && "loaded"@[0] == 'l');
    assert("error"@[0] == 'e' && "model"@[0] == 'm');
    assert(m.drop_first()[0] == m[1]);
    assert(m.drop_first().drop_first()[0] == m[2]);
    assert(m.drop_first().drop_first().drop_first()[0] == m[3]);
    json::lemma_text_array(loaded);
}

// ---------------------------------------------------------------- pushed documents

/// What the applet makes of a fraction that the agent reports.
pub open spec fn shown(bits: u64) -> u32 {
    if ieee::is_finite(bits) {
        ieee::narrow(bits)
    } else {
        0
    }
}

/// What the applet makes of a counter that the agent reports.
pub open spec fn counted(n: u64) -> u32 {
    ieee::narrow(ieee::double_of(n as nat))
}

/// The server as the applet lists it.
pub open spec fn listed(e: Server, index: int) -> spark::Engine {
    spark::Engine {
        port: e.port,
        kind: e.kind,
        endpoint: e.endpoint,
        models: e.models,
        model_count: e.models.len() as usize,
        loaded: e.loaded,
        has_metrics: e.metrics.len() > 0,
        primary: index == 0 && e.metrics.len() > 0,
    }
}

/// The node values as the applet shows them.
pub open spec fn node_shown(n: Machine, g: Gpu) -> spark::Node {
    spark::Node {
        cpu_pct: shown(n.cpu_pct),
        cpu_count: ieee::clamped(counted(n.cpu_count), u32::MAX as nat) as u32,
        load1: shown(n.load1),
        mem_used_gib: shown(n.mem_used_gib),
        mem_total_gib: shown(n.mem_total_gib),
        mem_pct: shown(n.mem_pct),
        swap_used_gib: shown(n.swap_used_gib),
        swap_total_gib: shown(n.swap_total_gib),
        gpu_name: g.name,
        gpu_available: g.available,
        gpu_util_pct: shown(g.util_pct),
        gpu_power_w: shown(g.power_w),
        gpu_temp_c: shown(g.temp_c),
    }
}

/// The engine values as the applet shows them where there are any.
pub open spec fn values_shown(s: Llm) -> spark::Metrics {
    spark::Metrics {
        available: true,
        error: None,
        reason: Seq::empty(),
        model: s.model,
        running: ieee::clamped(counted(s.running), u32::MAX as nat) as u32,
        waiting: ieee::clamped(counted(s.waiting), u32::MAX as nat) as u32,
        kv_cache_pct: shown(s.kv_cache_pct),
        gen_tok_s: shown(s.gen_tok_s),
        prompt_tok_s: shown(s.prompt_tok_s),
        gen_tokens_total: ieee::clamped(shown(s.gen_tokens_total), u64::MAX as nat) as u64,
        prompt_tokens_total: ieee::clamped(shown(s.prompt_tokens_total), u64::MAX as nat) as u64,
        ttft_ms: shown(s.ttft_ms),
        spec_accept_pct: match s.spec_accept_pct {
            Some(bits) => if ieee::is_finite(bits) {
                Some(ieee::narrow(bits))
            } else {
                None
            },
            None => None,
        },
        preemptions_total: ieee::clamped(counted(s.preemptions_total), u64::MAX as nat) as u64,
    }
}

/// The engine values as the applet shows them where there are none.
pub open spec fn missing_shown(reason: Seq<char>, error: Seq<char>) -> spark::Metrics {
    spark::Metrics {
        error: if error.len() > 0 {
            Some(error)
        } else {
            None
        },
        reason,
        ..spark::no_metrics()
    }
}

/// The engine values as the applet shows them.
pub open spec fn engine_shown(s: Llm, enabled: bool) -> spark::Metrics {
    if !enabled {
        missing_shown("disabled"@, "LLM-Monitoring auf diesem Knoten deaktiviert"@)
    } else if s.available {
        values_shown(s)
    } else {
        missing_shown(s.reason, s.error)
    }
}

proof fn lemma_gpu_members(g: Gpu)
    ensures
        ({
            let doc = snapshot::gpu_doc(g);
            let m = doc->Object_0;
            &&& json::member(doc, "available"@) == Some(m[0].1)
            &&& json::member(doc, "mem_util_pct"@) == Some(m[1].1)
            &&& json::member(doc, "name"@) == Some(m[2].1)
            &&& json::member(doc, "power_w"@) == Some(m[3].1)
            &&& json::member(doc, "sm_mhz"@) == Some(m[4].1)
            &&& json::member(doc, "vendor"@) == Some(m[7].1)
            &&& json::member(doc, "temp_c"@) == Some(m[5].1)
            &&& json::member(doc, "util_pct"@) == Some(m[6].1)
            &&& json::member(doc, "vram_total_mib"@) == Some(m[8].1)
            &&& json::member(doc, "vram_used_mib"@) == Some(m[9].1)
        }),
{
    let m = snapshot::gpu_doc(g)->Object_0;
    reveal_strlit("available");
    reveal_strlit("mem_util_pct");
    reveal_strlit("name");
    reveal_strlit("power_w");
    reveal_strlit("sm_mhz");
    reveal_strlit("temp_c");
    reveal_strlit("util_pct");
    reveal_strlit("vendor");
    reveal_strlit("vram_total_mib");
    reveal_strlit("vram_used_mib");
    text::lemma_before_at("available"@, "mem_util_pct"@, 0);
    assert(json::rises_at(m, 0));
    text::lemma_before_at("mem_util_pct"@, "name"@, 0);
    assert(json::rises_at(m, 1));
    text::lemma_before_at("name"@, "power_w"@, 0);
    assert(json::rises_at(m, 2));
    text::lemma_before_at("power_w"@, "sm_mhz"@, 0);
    assert(json::rises_at(m, 3));
    text::lemma_before_at("sm_mhz"@, "temp_c"@, 0);
    assert(json::rises_at(m, 4));
    text::lemma_before_at("temp_c"@, "util_pct"@, 0);
    assert(json::rises_at(m, 5));
    text::lemma_before_at("util_pct"@, "vendor"@, 0);
    assert(json::rises_at(m, 6));
    text::lemma_before_at("vendor"@, "vram_total_mib"@, 1);
    assert(json::rises_at(m, 7));
    text::lemma_before_at("vram_total_mib"@, "vram_used_mib"@, 5);
    assert(json::rises_at(m, 8));
    json::lemma_rising(m);
    json::lemma_lookup(m, 1);
    json::lemma_lookup(m, 4);
    json::lemma_lookup(m, 7);
    json::lemma_lookup(m, 0);
    json::lemma_lookup(m, 2);
    json::lemma_lookup(m, 3);
    json::lemma_lookup(m, 5);
    json::lemma_lookup(m, 6);
    json::lemma_lookup(m, 8);
    json::lemma_lookup(m, 9);
}

proof fn lemma_node_members(n: Machine)
    ensures
        ({
            let doc = snapshot::node_doc(n);
            let m = doc->Object_0;
            &&& json::member(doc, "cpu_count"@) == Some(m[0].1)
            &&& json::member(doc, "cpu_model"@) == Some(m[1].1)
            &&& json::member(doc, "cpu_pct"@) == Some(m[2].1)
            &&& json::member(doc, "load1"@) == Some(m[3].1)
            &&& json::member(doc, "load15"@) == Some(m[4].1)
            &&& json::member(doc, "load5"@) == Some(m[5].1)
            &&& json::member(doc, "mem_avail_gib"@) == Some(m[6].1)
            &&& json::member(doc, "uptime_s"@) == Some(m[12].1)
            &&& json::member(doc, "mem_pct"@) == Some(m[7].1)
            &&& json::member(doc, "mem_total_gib"@) == Some(m[8].1)
            &&& json::member(doc, "mem_used_gib"@) == Some(m[9].1)
            &&& json::member(doc, "swap_total_gib"@) == Some(m[10].1)
            &&& json::member(doc, "swap_used_gib"@) == Some(m[11].1)
        }),
{
    let m = snapshot::node_doc(n)->Object_0;
    reveal_strlit("cpu_count");
    reveal_strlit("cpu_model");
    reveal_strlit("cpu_pct");
    reveal_strlit("load1");
    reveal_strlit("load15");
    reveal_strlit("load5");
    reveal_strlit("mem_avail_gib");
    reveal_strlit("mem_pct");
    reveal_strlit("mem_total_gib");
    reveal_strlit("mem_used_gib");
    reveal_strlit("swap_total_gib");
    reveal_strlit("swap_used_gib");
    reveal_strlit("uptime_s");
    text::lemma_before_at("cpu_count"@, "cpu_model"@, 4);
    assert(json::rises_at(m, 0));
    text::lemma_before_at("cpu_model"@, "cpu_pct"@, 4);
    assert(json::rises_at(m, 1));
    text::lemma_before_at("cpu_pct"@, "load1"@, 0);
    assert(json::rises_at(m, 2));
    text::lemma_before_at("load1"@, "load15"@, 5);
    assert(json::rises_at(m, 3));
    text::lemma_before_at("load15"@, "load5"@, 4);
    assert(json::rises_at(m, 4));
    text::lemma_before_at("load5"@, "mem_avail_gib"@, 0);
    assert(json::rises_at(m, 5));
    text::lemma_before_at("mem_avail_gib"@, "mem_pct"@, 4);
    assert(json::rises_at(m, 6));
    text::lemma_before_at("mem_pct"@, "mem_total_gib"@, 4);
    assert(json::rises_at(m, 7));
    text::lemma_before_at("mem_total_gib"@, "mem_used_gib"@, 4);
    assert(json::rises_at(m, 8));
    text::lemma_before_at("mem_used_gib"@, "swap_total_gib"@, 0);
    assert(json::rises_at(m, 9));
    text::lemma_before_at("swap_total_gib"@, "swap_used_gib"@, 5);
    assert(json::rises_at(m, 10));
    text::lemma_before_at("swap_used_gib"@, "uptime_s"@, 0);
    assert(json::rises_at(m, 11));
    json::lemma_rising(m);
    json::lemma_lookup(m, 4);
    json::lemma_lookup(m, 5);
    json::lemma_lookup(m, 6);
    json::lemma_lookup(m, 12);
    json::lemma_lookup(m, 0);
    json::lemma_lookup(m, 1);
    json::lemma_lookup(m, 2);
    json::lemma_lookup(m, 3);
    json::lemma_lookup(m, 7);
    json::lemma_lookup(m, 8);
    json::lemma_lookup(m, 9);
    json::lemma_lookup(m, 10);
    json::lemma_lookup(m, 11);
}

proof fn lemma_engine_members(e: Server, index: int)
    ensures
        ({
            let doc = snapshot::engine_doc(e, index);
            let m = doc->Object_0;
            &&& json::member(doc, "endpoint"@) == Some(m[0].1)
            &&& json::member(doc, "kind"@) == Some(m[1].1)
            &&& json::member(doc, "loaded"@) == Some(m[2].1)
            &&& json::member(doc, "metrics"@) == Some(m[3].1)
            &&& json::member(doc, "model_count"@) == Some(m[4].1)
            &&& json::member(doc, "models"@) == Some(m[5].1)
            &&& json::member(doc, "port"@) == Some(m[6].1)
            &&& json::member(doc, "primary"@) == Some(m[7].1)
        }),
{
    let m = snapshot::engine_doc(e, index)->Object_0;
    reveal_strlit("endpoint");
    reveal_strlit("kind");
    reveal_strlit("loaded");
    reveal_strlit("metrics");
    reveal_strlit("model_count");
    reveal_strlit("models");
    reveal_strlit("port");
    reveal_strlit("primary");
    text::lemma_before_at("endpoint"@, "kind"@, 0);
    assert(json::rises_at(m, 0));
    text::lemma_before_at("kind"@, "loaded"@, 0);
    assert(json::rises_at(m, 1));
    text::lemma_before_at("loaded"@, "metrics"@, 0);
    assert(json::rises_at(m, 2));
    text::lemma_before_at("metrics"@, "model_count"@, 1);
    assert(json::rises_at(m, 3));
    text::lemma_before_at("model_count"@, "models"@, 5);
    assert(json::rises_at(m, 4));
    text::lemma_before_at("models"@, "port"@, 0);
    assert(json::rises_at(m, 5));
    text::lemma_before_at("port"@, "primary"@, 1);
    assert(json::rises_at(m, 6));
    json::lemma_rising(m);
    json::lemma_lookup(m, 0);
    json::lemma_lookup(m, 1);
    json::lemma_lookup(m, 2);
    json::lemma_lookup(m, 3);
    json::lemma_lookup(m, 4);
    json::lemma_lookup(m, 5);
    json::lemma_lookup(m, 6);
    json::lemma_lookup(m, 7);
}

proof fn lemma_llm_members(discover: bool, url: Seq<char>, list: Seq<Server>)
    ensures
        ({
            let doc = snapshot::llm_doc(discover, url, list);
            let m = doc->Object_0;
            &&& json::member(doc, "engines"@) == Some(m[2].1)
        }),
{
    let m = snapshot::llm_doc(discover, url, list)->Object_0;
    reveal_strlit("autodiscover");
    reveal_strlit("endpoint");
    reveal_strlit("engines");
    text::lemma_before_at("autodiscover"@, "endpoint"@, 0);
    assert(json::rises_at(m, 0));
    text::lemma_before_at("endpoint"@, "engines"@, 2);
    assert(json::rises_at(m, 1));
    json::lemma_rising(m);
    json::lemma_lookup(m, 2);
}

proof fn lemma_connection_members(row: (Seq<char>, u32))
    ensures
        ({
            let doc = snapshot::connection_doc(row);
            let m = doc->Object_0;
            &&& json::member(doc, "count"@) == Some(m[0].1)
            &&& json::member(doc, "ip"@) == Some(m[1].1)
        }),
{
    let m = snapshot::connection_doc(row)->Object_0;
    reveal_strlit("count");
    reveal_strlit("ip");
    text::lemma_before_at("count"@, "ip"@, 0);
    assert(json::rises_at(m, 0));
    json::lemma_rising(m);
    json::lemma_lookup(m, 0);
    json::lemma_lookup(m, 1);
}

proof fn lemma_clients_members(port: Option<u16>, rows: Seq<(Seq<char>, u32)>)
    ensures
        ({
            let doc = snapshot::clients_doc(port, rows);
            let m = doc->Object_0;
            &&& json::member(doc, "connections"@) == Some(m[0].1)
            &&& json::member(doc, "port"@) == Some(m[1].1)
        }),
{
    let m = snapshot::clients_doc(port, rows)->Object_0;
    reveal_strlit("connections");
    reveal_strlit("port");
    text::lemma_before_at("connections"@, "port"@, 0);
    assert(json::rises_at(m, 0));
    json::lemma_rising(m);
    json::lemma_lookup(m, 0);
    json::lemma_lookup(m, 1);
}

proof fn lemma_missing_members(reason: Seq<char>, error: Seq<char>)
    ensures
        ({
            let doc = snapshot::missing_doc(reason, error);
            let m = doc->Object_0;
            &&& json::member(doc, "available"@) == Some(m[0].1)
            &&& json::member(doc, "error"@) == Some(m[1].1)
            &&& json::member(doc, "reason"@) == Some(m[2].1)
        }),
{
    let m = snapshot::missing_doc(reason, error)->Object_0;
    reveal_strlit("available");
    reveal_strlit("error");
    reveal_strlit("reason");
    text::lemma_before_at("available"@, "error"@, 0);
    assert(json::rises_at(m, 0));
    text::lemma_before_at("error"@, "reason"@, 0);
    assert(json::rises_at(m, 1));
    json::lemma_rising(m);
    json::lemma_lookup(m, 0);
    json::lemma_lookup(m, 1);
    json::lemma_lookup(m, 2);
}

proof fn lemma_values_members(s: Llm)
    ensures
        ({
            let doc = snapshot::values_doc(s);
            let m = doc->Object_0;
            &&& json::member(doc, "available"@) == Some(m[0].1)
            &&& json::member(doc, "error"@) == Some(m[1].1)
            &&& json::member(doc, "gen_tok_s"@) == Some(m[2].1)
            &&& json::member(doc, "gen_tokens_total"@) == Some(m[3].1)
            &&& json::member(doc, "kv_cache_pct"@) == Some(m[4].1)
            &&& json::member(doc, "model"@) == Some(m[5].1)
            &&& json::member(doc, "preemptions_total"@) == Some(m[6].1)
            &&& json::member(doc, "prompt_tok_s"@) == Some(m[7].1)
            &&& json::member(doc, "prompt_tokens_total"@) == Some(m[8].1)
            &&& json::member(doc, "reason"@) == Some(m[9].1)
            &&& json::member(doc, "running"@) == Some(m[10].1)
            &&& json::member(doc, "spec_accept_pct"@) == Some(m[11].1)
            &&& json::member(doc, "ttft_ms"@) == Some(m[12].1)
            &&& json::member(doc, "waiting"@) == Some(m[13].1)
        }),
{
    let m = snapshot::values_doc(s)->Object_0;
    reveal_strlit("available");
    reveal_strlit("error");
    reveal_strlit("gen_tok_s");
    reveal_strlit("gen_tokens_total");
    reveal_strlit("kv_cache_pct");
    reveal_strlit("model");
    reveal_strlit("preemptions_total");
    reveal_strlit("prompt_tok_s");
    reveal_strlit("prompt_tokens_total");
    reveal_strlit("reason");
    reveal_strlit("running");
    reveal_strlit("spec_accept_pct");
    reveal_strlit("ttft_ms");
    reveal_strlit("waiting");
    text::lemma_before_at("available"@, "error"@, 0);
    assert(json::rises_at(m, 0));
    text::lemma_before_at("error"@, "gen_tok_s"@, 0);
    assert(json::rises_at(m, 1));
    text::lemma_before_at("gen_tok_s"@, "gen_tokens_total"@, 7);
    assert(json::rises_at(m, 2));
    text::lemma_before_at("gen_tokens_total"@, "kv_cache_pct"@, 0);
    assert(json::rises_at(m, 3));
    text::lemma_before_at("kv_cache_pct"@, "model"@, 0);
    assert(json::rises_at(m, 4));
    text::lemma_before_at("model"@, "preemptions_total"@, 0);
    assert(json::rises_at(m, 5));
    text::lemma_before_at("preemptions_total"@, "prompt_tok_s"@, 2);
    assert(json::rises_at(m, 6));
    text::lemma_before_at("prompt_tok_s"@, "prompt_tokens_total"@, 10);
    assert(json::rises_at(m, 7));
    text::lemma_before_at("prompt_tokens_total"@, "reason"@, 0);
    assert(json::rises_at(m, 8));
    text::lemma_before_at("reason"@, "running"@, 1);
    assert(json::rises_at(m, 9));
    text::lemma_before_at("running"@, "spec_accept_pct"@, 0);
    assert(json::rises_at(m, 10));
    text::lemma_before_at("spec_accept_pct"@, "ttft_ms"@, 0);
    assert(json::rises_at(m, 11));
    text::lemma_before_at("ttft_ms"@, "waiting"@, 0);
    assert(json::rises_at(m, 12));
    json::lemma_rising(m);
    json::lemma_lookup(m, 0);
    json::lemma_lookup(m, 1);
    json::lemma_lookup(m, 2);
    json::lemma_lookup(m, 3);
    json::lemma_lookup(m, 4);
    json::lemma_lookup(m, 5);
    json::lemma_lookup(m, 6);
    json::lemma_lookup(m, 7);
    json::lemma_lookup(m, 8);
    json::lemma_lookup(m, 9);
    json::lemma_lookup(m, 10);
    json::lemma_lookup(m, 11);
    json::lemma_lookup(m, 12);
    json::lemma_lookup(m, 13);
}

proof fn lemma_snapshot_members(w: Whole)
    ensures
        ({
            let doc = snapshot::snapshot_doc(w);
            let m = doc->Object_0;
            &&& json::member(doc, "clients"@) == Some(m[1].1)
            &&& json::member(doc, "gpu"@) == Some(m[2].1)
            &&& json::member(doc, "host"@) == Some(m[3].1)
            &&& json::member(doc, "llm"@) == Some(m[4].1)
            &&& json::member(doc, "node"@) == Some(m[5].1)
            &&& json::member(doc, "uptime_s"@) == Some(m[7].1)
            &&& json::member(doc, "version"@) == Some(m[8].1)
            &&& json::member(doc, "vllm"@) == Some(m[9].1)
        }),
{
    let m = snapshot::snapshot_doc(w)->Object_0;
    reveal_strlit("agent");
    reveal_strlit("clients");
    reveal_strlit("gpu");
    reveal_strlit("host");
    reveal_strlit("llm");
    reveal_strlit("node");
    reveal_strlit("ts");
    reveal_strlit("uptime_s");
    reveal_strlit("version");
    reveal_strlit("vllm");
    text::lemma_before_at("agent"@, "clients"@, 0);
    assert(json::rises_at(m, 0));
    text::lemma_before_at("clients"@, "gpu"@, 0);
    assert(json::rises_at(m, 1));
    text::lemma_before_at("gpu"@, "host"@, 0);
    assert(json::rises_at(m, 2));
    text::lemma_before_at("host"@, "llm"@, 0);
    assert(json::rises_at(m, 3));
    text::lemma_before_at("llm"@, "node"@, 0);
    assert(json::rises_at(m, 4));
    text::lemma_before_at("node"@, "ts"@, 0);
    assert(json::rises_at(m, 5));
    text::lemma_before_at("ts"@, "uptime_s"@, 0);
    assert(json::rises_at(m, 6));
    text::lemma_before_at("uptime_s"@, "version"@, 0);
    assert(json::rises_at(m, 7));
    text::lemma_before_at("version"@, "vllm"@, 1);
    assert(json::rises_at(m, 8));
    json::lemma_rising(m);
    json::lemma_lookup(m, 1);
    json::lemma_lookup(m, 2);
    json::lemma_lookup(m, 3);
    json::lemma_lookup(m, 4);
    json::lemma_lookup(m, 5);
    json::lemma_lookup(m, 7);
    json::lemma_lookup(m, 8);
    json::lemma_lookup(m, 9);
}

proof fn lemma_missing_absent(reason: Seq<char>, error: Seq<char>)
    ensures
        ({
            let doc = snapshot::missing_doc(reason, error);
            &&& json::member(doc, "model"@) is None
            &&& json::member(doc, "running"@) is None
            &&& json::member(doc, "waiting"@) is None
            &&& json::member(doc, "kv_cache_pct"@) is None
            &&& json::member(doc, "gen_tok_s"@) is None
            &&& json::member(doc, "prompt_tok_s"@) is None
            &&& json::member(doc, "gen_tokens_total"@) is None
            &&& json::member(doc, "prompt_tokens_total"@) is None
            &&& json::member(doc, "ttft_ms"@) is None
            &&& json::member(doc, "spec_accept_pct"@) is None
            &&& json::member(doc, "preemptions_total"@) is None
        }),
{
    let m = snapshot::missing_doc(reason, error)->Object_0;
    reveal_with_fuel(json::lookup, 4);
    reveal_strlit("available");
    reveal_strlit("error");
    reveal_strlit("reason");
    reveal_strlit("model");
    reveal_strlit("running");
    reveal_strlit("waiting");
    reveal_strlit("kv_cache_pct");
    reveal_strlit("gen_tok_s");
    reveal_strlit("prompt_tok_s");
    reveal_strlit("gen_tokens_total");
    reveal_strlit("prompt_tokens_total");
    reveal_strlit("ttft_ms");
    reveal_strlit("spec_accept_pct");
    reveal_strlit("preemptions_total");
    assert("available"@[0] == 'a' && "error"@[0] == 'e' && "reason"@[0] == 'r');
    assert("reason"@.len() == 6 && "running"@.len() == 7);
    assert("model"@[0] == 'm');
    assert("running"@[0] == 'r');
    assert("waiting"@[0] == 'w');
    assert("kv_cache_pct"@[0] == 'k');
    assert("gen_tok_s"@[0] == 'g');
    assert("prompt_tok_s"@[0] == 'p');
    assert("gen_tokens_total"@[0] == 'g');
    assert("prompt_tokens_total"@[0] == 'p');
    assert("ttft_ms"@[0] == 't');
    assert("spec_accept_pct"@[0] == 's');
    assert("preemptions_total"@[0] == 'p');
    assert(m.drop_first()[0] == m[1]);
    assert(m.drop_first().drop_first()[0] == m[2]);
}

proof fn lemma_engine_listed(e: Server, index: int)
    requires
        e.models.len() <= usize::MAX,
    ensures
        spark::engine_in(snapshot::engine_doc(e, index)) == listed(e, index),
{
    lemma_engine_members(e, index);
    json::lemma_text_array(e.models);
    json::lemma_text_array(e.loaded);
}

proof fn lemma_clients_listed(rows: Seq<(Seq<char>, u32)>)
    ensures
        spark::clients_in(rows.map_values(|r: (Seq<char>, u32)| snapshot::connection_doc(r)))
            == rows.map_values(|r: (Seq<char>, u32)| (spark::Client { ip: r.0, count: r.1 })),
    decreases rows.len(),
{
    let docs = rows.map_values(|r: (Seq<char>, u32)| snapshot::connection_doc(r));
    let clients = rows.map_values(
        |r: (Seq<char>, u32)| (spark::Client { ip: r.0, count: r.1 }),
    );
    if rows.len() > 0 {
        let shorter = rows.drop_last();
        lemma_clients_listed(shorter);
        lemma_connection_members(rows.last());
        assert(docs.drop_last() =~= shorter.map_values(
            |r: (Seq<char>, u32)| snapshot::connection_doc(r),
        ));
        assert(clients.drop_last() =~= shorter.map_values(
            |r: (Seq<char>, u32)| (spark::Client { ip: r.0, count: r.1 }),
        ));
        assert(clients =~= clients.drop_last().push(clients.last()));
    } else {
        assert(spark::clients_in(docs) =~= clients);
    }
}

#[verifier::rlimit(100)]
#[verifier::spinoff_prover]
proof fn lemma_block_shown(doc: Doc, s: Llm, enabled: bool, readings: Seq<(Seq<char>, u32)>)
    requires
        json::member(doc, "vllm"@) == Some(snapshot::engine_block(s, enabled)),
    ensures
        spark::metrics_in(doc, readings) == engine_shown(s, enabled),
{
    if enabled && s.available {
        lemma_values_members(s);
    } else if enabled {
        lemma_missing_members(s.reason, s.error);
        lemma_missing_absent(s.reason, s.error);
    } else {
        lemma_missing_members("disabled"@, "LLM-Monitoring auf diesem Knoten deaktiviert"@);
        lemma_missing_absent("disabled"@, "LLM-Monitoring auf diesem Knoten deaktiviert"@);
    }
    assert(spark::metrics_in(doc, readings) =~= engine_shown(s, enabled));
}

proof fn lemma_names_understood(agent: spark::Agent, w: Whole, readings: Seq<(Seq<char>, u32)>)
    ensures
        ({
            let after = spark::informed(agent, snapshot::snapshot_doc(w), readings);
            &&& after.host == w.host
            &&& after.version == w.version
            &&& after.uptime_s == shown(w.node.uptime_s)
            &&& after.cpu_model == w.node.cpu_model
        }),
{
    lemma_snapshot_members(w);
    lemma_node_members(w.node);
}

proof fn lemma_cards_understood(agent: spark::Agent, w: Whole, readings: Seq<(Seq<char>, u32)>)
    ensures
        ({
            let after = spark::informed(agent, snapshot::snapshot_doc(w), readings);
            &&& after.gpu_name == w.gpu.name
            &&& after.gpu_vram_used_mib == if ieee::is_finite(w.gpu.vram_used_mib) {
                w.gpu.vram_used_mib
            } else {
                0
            }
            &&& after.gpu_vram_total_mib == if ieee::is_finite(w.gpu.vram_total_mib) {
                w.gpu.vram_total_mib
            } else {
                0
            }
        }),
{
    lemma_snapshot_members(w);
    lemma_gpu_members(w.gpu);
}

#[verifier::rlimit(50)]
#[verifier::spinoff_prover]
proof fn lemma_node_understood(w: Whole, readings: Seq<(Seq<char>, u32)>)
    ensures
        spark::node_in(snapshot::snapshot_doc(w), readings) == node_shown(w.node, w.gpu),
{
    lemma_snapshot_members(w);
    lemma_node_members(w.node);
    lemma_gpu_members(w.gpu);
    assert(spark::node_in(snapshot::snapshot_doc(w), readings) =~= node_shown(w.node, w.gpu));
}

proof fn lemma_engine_understood(w: Whole, readings: Seq<(Seq<char>, u32)>)
    ensures
        spark::metrics_in(snapshot::snapshot_doc(w), readings) == engine_shown(w.llm, w.enabled),
{
    lemma_snapshot_members(w);
    lemma_block_shown(snapshot::snapshot_doc(w), w.llm, w.enabled, readings);
}

proof fn lemma_servers_understood(agent: spark::Agent, w: Whole, readings: Seq<(Seq<char>, u32)>)
    requires
        forall|i: int| 0 <= i < w.engines.len() ==> (#[trigger] w.engines[i]).models.len()
            <= usize::MAX,
    ensures
        spark::informed(agent, snapshot::snapshot_doc(w), readings).engines == Seq::new(
            w.engines.len(),
            |i: int| listed(w.engines[i], i),
        ),
{
    lemma_snapshot_members(w);
    lemma_llm_members(w.discover, w.url, w.engines);
    let servers = snapshot::engine_docs(w.engines);
    let seen = Seq::new(w.engines.len(), |i: int| listed(w.engines[i], i));
    assert forall|i: int| 0 <= i < servers.len() implies spark::engine_in(#[trigger] servers[i])
        == seen[i] by {
        lemma_engine_listed(w.engines[i], i);
    }
    assert(servers.map_values(|d: Doc| spark::engine_in(d)) =~= seen);
}

proof fn lemma_clients_understood(agent: spark::Agent, w: Whole, readings: Seq<(Seq<char>, u32)>)
    ensures
        ({
            let after = spark::informed(agent, snapshot::snapshot_doc(w), readings);
            &&& after.clients == if snapshot::served_port(w.engines) is Some {
                w.clients.map_values(
                    |r: (Seq<char>, u32)| (spark::Client { ip: r.0, count: r.1 }),
                )
            } else {
                Seq::empty()
            }
            &&& after.client_port == match snapshot::served_port(w.engines) {
                Some(port) => port,
                None => 0,
            }
        }),
{
    lemma_snapshot_members(w);
    lemma_clients_members(snapshot::served_port(w.engines), w.clients);
    lemma_clients_listed(w.clients);
}

/// The applet understands the document that the agent pushes: the host, the
/// version, the node, the GPUs, the engine, the servers and their clients are
/// those that the agent reported.
#[verifier::rlimit(100)]
#[verifier::spinoff_prover]
pub proof fn snapshots_are_understood(
    agent: spark::Agent,
    w: Whole,
    readings: Seq<(Seq<char>, u32)>,
)
    requires
        forall|i: int| 0 <= i < w.engines.len() ==> (#[trigger] w.engines[i]).models.len()
            <= usize::MAX,
    ensures
        spark::informed(agent, snapshot::snapshot_doc(w), readings) == (spark::Agent {
            host: w.host,
            uptime_s: shown(w.node.uptime_s),
            node: node_shown(w.node, w.gpu),
            engine: engine_shown(w.llm, w.enabled),
            version: w.version,
            cpu_model: w.node.cpu_model,
            gpu_name: w.gpu.name,
            gpu_vram_used_mib: if ieee::is_finite(w.gpu.vram_used_mib) {
                w.gpu.vram_used_mib
            } else {
                0
            },
            gpu_vram_total_mib: if ieee::is_finite(w.gpu.vram_total_mib) {
                w.gpu.vram_total_mib
            } else {
                0
            },
            engines: Seq::new(w.engines.len(), |i: int| listed(w.engines[i], i)),
            clients: if snapshot::served_port(w.engines) is Some {
                w.clients.map_values(
                    |r: (Seq<char>, u32)| (spark::Client { ip: r.0, count: r.1 }),
                )
            } else {
                Seq::empty()
            },
            client_port: match snapshot::served_port(w.engines) {
                Some(port) => port,
                None => 0,
            },
            ..agent
        }),
{
    lemma_names_understood(agent, w, readings);
    lemma_cards_understood(agent, w, readings);
    lemma_node_understood(w, readings);
    lemma_engine_understood(w, readings);
    lemma_servers_understood(agent, w, readings);
    lemma_clients_understood(agent, w, readings);
}

/// The pushed document holds every value of the graphics cards under its name.
pub proof fn cards_are_pushed_whole(g: Gpu)
    ensures
        ({
            let doc = snapshot::gpu_doc(g);
            &&& json::member(doc, "available"@) == Some(Doc::Bool(g.available))
            &&& json::member(doc, "name"@) == Some(Doc::Text(g.name))
            &&& json::member(doc, "vendor"@) == Some(Doc::Text(g.vendor))
            &&& json::member(doc, "util_pct"@) == Some(json::fraction(g.util_pct))
            &&& json::member(doc, "mem_util_pct"@) == Some(json::fraction(g.mem_util_pct))
            &&& json::member(doc, "temp_c"@) == Some(json::fraction(g.temp_c))
            &&& json::member(doc, "power_w"@) == Some(json::fraction(g.power_w))
            &&& json::member(doc, "sm_mhz"@) == Some(json::fraction(g.sm_mhz))
            &&& json::member(doc, "vram_used_mib"@) == Some(json::fraction(g.vram_used_mib))
            &&& json::member(doc, "vram_total_mib"@) == Some(json::fraction(g.vram_total_mib))
        }),
{
    lemma_gpu_members(g);
}

/// The pushed document holds every value of the node under its name.
pub proof fn nodes_are_pushed_whole(n: Machine)
    ensures
        ({
            let doc = snapshot::node_doc(n);
            &&& json::natural_of(json::member(doc, "cpu_count"@)) == Some(n.cpu_count)
            &&& json::member(doc, "cpu_model"@) == Some(Doc::Text(n.cpu_model))
            &&& json::member(doc, "cpu_pct"@) == Some(json::fraction(n.cpu_pct))
            &&& json::member(doc, "load1"@) == Some(json::fraction(n.load1))
            &&& json::member(doc, "load5"@) == Some(json::fraction(n.load5))
            &&& json::member(doc, "load15"@) == Some(json::fraction(n.load15))
            &&& json::member(doc, "mem_total_gib"@) == Some(json::fraction(n.mem_total_gib))
            &&& json::member(doc, "mem_used_gib"@) == Some(json::fraction(n.mem_used_gib))
            &&& json::member(doc, "mem_avail_gib"@) == Some(json::fraction(n.mem_avail_gib))
            &&& json::member(doc, "mem_pct"@) == Some(json::fraction(n.mem_pct))
            &&& json::member(doc, "swap_total_gib"@) == Some(json::fraction(n.swap_total_gib))
            &&& json::member(doc, "swap_used_gib"@) == Some(json::fraction(n.swap_used_gib))
            &&& json::member(doc, "uptime_s"@) == Some(json::fraction(n.uptime_s))
        }),
{
    lemma_node_members(n);
}

} // verus!
