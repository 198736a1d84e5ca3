//! Remote nodes: documents, snapshots, warnings, settings and the cache.
use sysmon::cache::{cache_value, lock_is_stale, plan, read_cache, read_cache_document, Plan};
use sysmon::config::SparkConfig;
use sysmon::install::expected_agent_version;
use sysmon::json::{array_of_texts, no_members, object, with, words, Json};
use sysmon::link::{agent_url, fetch_step, load_request, load_step, request_step, short_error, ModelLoader, SocketEvent};
use sysmon::spark::{
    number_texts, read_document, AgentState, NodeMetrics, SparkMonitor, SparkSnapshot, Timing,
};

const DOCUMENT: &str = r#"{
        "agent": "megatron-sysmon", "version": "1.0", "host": "node-01",
        "ts": 1789849808.175, "uptime_s": 182087.5,
        "node": {"cpu_pct": 12.5, "cpu_count": 20, "load1": 0.06, "load5": 0.31, "load15": 0.38,
                 "mem_total_gib": 121.63, "mem_used_gib": 111.93, "mem_avail_gib": 9.7,
                 "mem_pct": 92.0, "swap_total_gib": 16.0, "swap_used_gib": 7.55},
        "gpu": {"available": true, "name": "NVIDIA GB10", "util_pct": 42.0, "mem_util_pct": 0.0,
                "temp_c": 61.0, "power_w": 118.42, "sm_mhz": 2411.0},
        "clients": {"port": 8000, "connections": [{"ip": "192.0.2.10", "count": 2}]},
        "llm": {"autodiscover": true, "endpoint": "http://127.0.0.1:8000/metrics",
                "engines": [{"port": 8000, "kind": "vllm", "endpoint": "http://127.0.0.1:8000",
                             "metrics": "http://127.0.0.1:8000/metrics", "primary": true,
                             "models": ["unsloth/Qwen3.8-Flash-Next-FP8", "Qwen3-Embedding"]}]},
        "vllm": {"available": true, "error": null, "model": "unsloth/Qwen3.8-Flash-Next-FP8",
                 "running": 3, "waiting": 1, "kv_cache_pct": 7.03, "gen_tokens_total": 18328,
                 "prompt_tokens_total": 48001, "preemptions_total": 2, "ttft_ms": 268.2,
                 "gen_tok_s": 58.4, "prompt_tok_s": 12.5, "spec_accept_pct": 66.2}
    }"#;

const HEADLESS_DOCUMENT: &str = r#"{
        "host": "node-02", "uptime_s": 69592.9,
        "node": {"cpu_pct": 0.2, "cpu_count": 20, "mem_total_gib": 121.63, "mem_used_gib": 113.05,
                 "mem_pct": 92.9, "swap_total_gib": 16.0, "swap_used_gib": 3.42},
        "gpu": {"available": true, "name": "NVIDIA GB10", "power_w": 10.37, "temp_c": 46.0},
        "vllm": {"available": false, "reason": "no-endpoint",
                 "error": "kein lokaler vLLM-Endpunkt (headless Rank?)"}
    }"#;

fn monitor_with(targets: &[&str]) -> (SparkMonitor, SparkConfig) {
    let config = SparkConfig {
        targets: targets.iter().map(|item| (*item).to_owned()).collect(),
        token: None,
        enabled: false,
        use_discovered: true,
        shared_cache: true,
        show_local_charts: true,
        client_names: Vec::new(),
        spark_section_open: true,
    };
    (SparkMonitor::start(&config), config)
}

fn soon() -> Timing {
    Timing { seconds: 0.0f32.to_bits(), blended: 0.0f32.to_bits() }
}

fn apply(monitor: &mut SparkMonitor, index: usize, document: &str) {
    monitor.apply_document(index, document, &Vec::new(), 1_000, soon());
}

fn ages(monitor: &SparkMonitor, seconds: f32) -> Vec<u32> {
    monitor.last_seen().iter().map(|_| seconds.to_bits()).collect()
}

fn shown(monitor: &SparkMonitor) -> SparkSnapshot {
    monitor.snapshot(&ages(monitor, 0.1))
}

fn single(bits: u32) -> f32 {
    f32::from_bits(bits)
}

fn total_gpu_watts(snapshot: &SparkSnapshot) -> f32 {
    snapshot.gpu_watts().iter().map(|bits| single(*bits)).sum()
}

#[test]
fn parses_a_full_document() {
    let (mut monitor, _config) = monitor_with(&["node-01"]);
    apply(&mut monitor, 0, DOCUMENT);

    let snapshot = shown(&monitor);
    let agent = &snapshot.agents[0];
    assert!(agent.online);
    assert_eq!(agent.host, "node-01");
    assert_eq!(agent.node.cpu_count, 20);
    assert!((single(agent.node.mem_pct) - 92.0).abs() < 0.01);
    assert!((single(agent.node.gpu_power_w) - 118.42).abs() < 0.01);
    assert!(agent.node.gpu_available);

    let engine = &agent.engine;
    assert!(engine.available);
    assert_eq!(engine.model, "unsloth/Qwen3.8-Flash-Next-FP8");
    assert_eq!(engine.running, 3);
    assert_eq!(engine.waiting, 1);
    assert!((single(engine.kv_cache_pct) - 7.03).abs() < 0.01);
    assert!((single(engine.gen_tok_s) - 58.4).abs() < 0.01);
    assert_eq!(engine.spec_accept_pct.map(single), Some(66.2));
    assert_eq!(engine.preemptions_total, 2);

    assert_eq!(snapshot.gen_tok_s.iter().map(|v| single(*v)).collect::<Vec<f32>>(), vec![58.4]);
    assert_eq!(snapshot.kv_pct.iter().map(|v| single(*v)).collect::<Vec<f32>>(), vec![7.03]);
    assert_eq!(snapshot.online_count(), 1);
    assert_eq!(snapshot.gpu_node_count(), 1);
    assert!((total_gpu_watts(&snapshot) - 118.42).abs() < 0.01);
}

#[test]
fn headless_node_is_online_without_engine_values() {
    let (mut monitor, _config) = monitor_with(&["node-01", "node-02"]);
    apply(&mut monitor, 0, DOCUMENT);
    apply(&mut monitor, 1, HEADLESS_DOCUMENT);

    let snapshot = shown(&monitor);
    assert_eq!(snapshot.online_count(), 2);
    let engine_agent = snapshot.engine_agent().expect("engine agent");
    assert_eq!(engine_agent.host, "node-01");
    assert!(snapshot.engine_error().is_some());
    assert_eq!(snapshot.gen_tok_s.len(), 1, "history follows the engine only");
    assert!((total_gpu_watts(&snapshot) - 128.79).abs() < 0.01);
}

#[test]
fn offline_agents_report_age_and_keep_the_last_values() {
    let (mut monitor, _config) = monitor_with(&["node-01"]);
    apply(&mut monitor, 0, DOCUMENT);

    let snapshot = shown(&monitor);
    assert!(snapshot.agents[0].online);
    assert!(single(snapshot.agents[0].age_s) < 1.0);
}

#[test]
fn discovered_engines_are_parsed() {
    let (mut monitor, _config) = monitor_with(&["node-01"]);
    apply(&mut monitor, 0, DOCUMENT);

    let snapshot = shown(&monitor);
    assert_eq!(snapshot.engine_count(), 1);
    assert_eq!(snapshot.client_total(), 2);
    assert_eq!(snapshot.agents[0].version, "1.0");
    // 1.0 is older than the shipped agent, so an update is offered.
    assert_eq!(snapshot.outdated_agents().len(), 1);
    assert_eq!(snapshot.agents[0].client_port, 8000);
    assert_eq!(snapshot.agents[0].clients[0].ip, "192.0.2.10");
    assert_eq!(snapshot.agents[0].engines[0].kind, "vllm");
    assert_eq!(snapshot.agents[0].engines[0].port, 8000);
    assert!(snapshot.agents[0].engines[0].has_metrics);
    assert_eq!(
        snapshot.models(),
        vec!["Qwen3-Embedding".to_owned(), "unsloth/Qwen3.8-Flash-Next-FP8".to_owned()]
    );
    let lines = snapshot.engine_lines();
    assert_eq!(lines.len(), 1);
    assert!(lines[0].contains("node-01"));
    assert!(lines[0].contains("vllm:8000"));
    assert!(lines[0].contains("2 Modelle"));
}

#[test]
fn current_agent_versions_offer_no_update() {
    let state = AgentState {
        label: "node-01:8787".to_owned(),
        online: true,
        version: expected_agent_version().to_owned(),
        ..AgentState::default()
    };
    let snapshot =
        SparkSnapshot { enabled: true, agents: vec![state], ..SparkSnapshot::default() };
    assert!(snapshot.version_mismatches().is_empty());
    assert!(snapshot.outdated_agents().is_empty());
}

#[test]
fn older_agent_versions_are_flagged_once() {
    let agent = AgentState {
        label: "desktop-01:8787".to_owned(),
        online: true,
        version: "0.1".to_owned(),
        ..AgentState::default()
    };
    let snapshot =
        SparkSnapshot { enabled: true, agents: vec![agent], ..SparkSnapshot::default() };
    let outdated = snapshot.outdated_agents();
    assert_eq!(outdated.len(), 1);
    assert_eq!(outdated[0].0, "desktop-01");
    assert_eq!(outdated[0].1, "desktop-01:8787");
    assert_eq!(outdated[0].2, "0.1");
}

#[test]
fn the_youngest_outdated_agent_comes_first() {
    let agent = |label: &str, age: f32| AgentState {
        label: label.to_owned(),
        online: true,
        age_s: age.to_bits(),
        version: "0.1".to_owned(),
        ..AgentState::default()
    };
    let agents = vec![agent("old", 9.0), agent("young", 0.5), agent("middle", 3.0)];
    let snapshot = SparkSnapshot { enabled: true, agents, ..SparkSnapshot::default() };
    let names: Vec<String> =
        snapshot.outdated_agents().into_iter().map(|(name, _, _)| name).collect();
    assert_eq!(names, vec!["young", "middle", "old"]);
}

#[test]
fn the_threshold_itself_is_not_hot() {
    let agent = |temp: f32| AgentState {
        online: true,
        node: NodeMetrics {
            gpu_available: true,
            gpu_temp_c: temp.to_bits(),
            ..NodeMetrics::default()
        },
        ..AgentState::default()
    };
    let snapshot = SparkSnapshot::default();
    assert!(!snapshot.node_is_hot(&agent(80.0)));
    assert!(snapshot.node_is_hot(&agent(80.5)));
}

#[test]
fn headless_reason_is_parsed_and_does_not_warn() {
    let (mut monitor, _config) = monitor_with(&["node-01", "node-02"]);
    apply(&mut monitor, 1, HEADLESS_DOCUMENT);

    let snapshot = shown(&monitor);
    assert_eq!(snapshot.agents[1].engine.reason, "no-endpoint");
    assert!(snapshot.warnings().is_empty());
}

fn warning_texts(snapshot: &SparkSnapshot) -> Vec<String> {
    snapshot
        .warnings()
        .iter()
        .map(|warning| {
            let degrees = match warning {
                sysmon::summary::Warning::Hot { temp_c, .. } => format!("{:.0}", single(*temp_c)),
                sysmon::summary::Warning::Line(_) => String::new(),
            };
            warning.text(&degrees)
        })
        .collect()
}

#[test]
fn thresholds_produce_warnings() {
    let (mut monitor, _config) = monitor_with(&["node-01"]);
    let hot = DOCUMENT
        .replace("\"temp_c\": 61.0", "\"temp_c\": 84.0")
        .replace("\"preemptions_total\": 2", "\"preemptions_total\": 3")
        .replace("\"waiting\": 1", "\"waiting\": 2");
    apply(&mut monitor, 0, &hot);

    let snapshot = shown(&monitor);
    let warnings = warning_texts(&snapshot);
    assert_eq!(warnings.len(), 3, "expected three warnings, got {warnings:?}");
    assert!(warnings.iter().any(|text| text.contains("Präemptionen")));
    assert!(warnings.iter().any(|text| text.contains("warten")));
    assert!(warnings.iter().any(|text| text.contains("84 °C")));
    assert!(snapshot.node_is_hot(&snapshot.agents[0]));
}

#[test]
fn invalid_json_is_ignored() {
    let (mut monitor, _config) = monitor_with(&["node-01"]);
    apply(&mut monitor, 0, "{not json");
    let snapshot = shown(&monitor);
    assert!(!snapshot.agents[0].online);
}

#[test]
fn urls_are_normalised() {
    assert_eq!(agent_url("node-01", None), "ws://node-01:8787/");
    assert_eq!(agent_url("node-01:9000", None), "ws://node-01:9000/");
    assert_eq!(agent_url("ws://10.0.0.5:8787/", None), "ws://10.0.0.5:8787/");
    assert_eq!(agent_url("node-01", Some("secret")), "ws://node-01:8787/?token=secret");
}

#[test]
fn config_round_trips_through_the_file() {
    let mut config = SparkConfig::default();
    config.targets = vec!["node-a:8787".to_owned(), "node-b".to_owned()];
    config.use_discovered = false;
    let value = with(no_members(), "enabled", Json::Bool(config.enabled));
    let value = with(value, "use_discovered", Json::Bool(config.use_discovered));
    let value = with(value, "agents", array_of_texts(&config.targets));
    let value = object(with(value, "token", words("")));
    let mut reloaded = SparkConfig::default();
    reloaded.apply_file(&value);
    assert_eq!(reloaded.targets, config.targets);
    assert!(!reloaded.use_discovered);
    assert!(reloaded.enabled);
}

#[test]
fn config_file_values_override_defaults() {
    let mut config = SparkConfig::default();
    let value = read_document(
        r#"
            {
              "enabled": true,
              "token": " t ",
              "agents": ["node-a:8787", " node-b "]
            }
            "#,
    )
    .unwrap();
    config.apply_file(&value);
    assert!(config.enabled);
    assert_eq!(config.token.as_deref(), Some("t"));
    assert_eq!(config.targets, vec!["node-a:8787", "node-b"]);
}

#[test]
fn stored_settings_are_read_again() {
    let mut config = SparkConfig::default();
    config.targets = vec!["spark-09:8787".to_owned(), "node-b".to_owned()];
    config.use_discovered = false;
    config.client_names = vec![("10.0.0.7".to_owned(), "laptop".to_owned())];
    let file = config.file_text();
    assert!(file.ends_with('\n'));
    let loaded = SparkConfig::load(Some(&file), None);
    assert_eq!(loaded.targets, vec!["spark-09:8787".to_owned(), "node-b".to_owned()]);
    assert!(!loaded.use_discovered);
    assert!(loaded.enabled);
    assert_eq!(loaded.client_names, config.client_names);
}

#[test]
fn an_empty_list_of_agents_stays_empty() {
    let mut config = SparkConfig::default();
    config.targets = Vec::new();
    let loaded = SparkConfig::load(Some(&config.file_text()), None);
    assert!(loaded.targets.is_empty());
    assert!(loaded.enabled);
    assert!(SparkConfig::load(Some(r#"{"agents": []}"#), None).targets.is_empty());
    for nameless in [r#"{"agents": [" "]}"#, r#"{"agents": [7, null, ""]}"#] {
        assert_eq!(SparkConfig::load(Some(nameless), None).targets, SparkConfig::default().targets);
    }
    assert_eq!(SparkConfig::load(Some("{}"), None).targets, SparkConfig::default().targets);
}

#[test]
fn client_names_are_stored_in_order() {
    let pair = |ip: &str, name: &str| (ip.to_owned(), name.to_owned());
    let mut config = SparkConfig::default();
    config.client_names = vec![pair("10.0.0.9", "b"), pair("10.0.0.10", "c"), pair("10.0.0.7", "a")];
    let loaded = SparkConfig::load(Some(&config.file_text()), None);
    assert_eq!(
        loaded.client_names,
        vec![pair("10.0.0.10", "c"), pair("10.0.0.7", "a"), pair("10.0.0.9", "b")]
    );
    config.client_names = vec![pair("10.0.0.9", "old"), pair("10.0.0.1", "x"), pair("10.0.0.9", "new")];
    let loaded = SparkConfig::load(Some(&config.file_text()), None);
    assert_eq!(loaded.client_names, vec![pair("10.0.0.1", "x"), pair("10.0.0.9", "new")]);
}

#[test]
fn the_environment_overrides_the_file() {
    let file = SparkConfig::default().file_text();
    let loaded = SparkConfig::load(Some(&file), Some("a:1, b"));
    assert_eq!(loaded.targets, vec!["a:1".to_owned(), "b".to_owned()]);
    let off = SparkConfig::load(Some(&file), Some("off"));
    assert!(!off.enabled);
    let broken = SparkConfig::load(Some("{nope"), None);
    assert_eq!(broken.targets, SparkConfig::default().targets);
}

#[test]
fn cached_documents_come_back() {
    let targets = vec!["node-01".to_owned(), "node-02".to_owned()];
    let documents = vec![Ok("{\"ts\": 1.0}".to_owned()), Err("Connection refused".to_owned())];
    let value = cache_value(12.5f64.to_bits(), &targets, &documents);
    let (timestamp, read_back) = read_cache_document(&value).expect("cache readable");
    assert!(f64::from_bits(timestamp) > 0.0);
    assert_eq!(read_back.len(), 2);
    assert_eq!(read_back[0].as_ref().unwrap(), "{\"ts\": 1.0}");
    assert_eq!(read_back[1].as_ref().unwrap_err(), "Connection refused");
    let text = r#"{"documents":[{"document":"{}","target":"a"},{"target":"b"}],"ts":2.0}"#;
    let (at, entries) = read_cache(text).unwrap();
    assert_eq!(f64::from_bits(at), 2.0);
    assert_eq!(entries, vec![Ok("{}".to_owned()), Err("nicht erreichbar".to_owned())]);
    assert!(read_cache("{}").is_none());
    assert!(read_cache("nope").is_none());
}

#[test]
fn one_instance_fetches() {
    assert_eq!(plan(false, Some(0)), Plan::Fetch);
    assert_eq!(plan(true, None), Plan::TryLock);
    assert_eq!(plan(true, Some(0.1f64.to_bits())), Plan::UseCache);
    assert_eq!(plan(true, Some(1000.0f64.to_bits())), Plan::TryLock);
    assert!(!lock_is_stale(None));
    assert!(!lock_is_stale(Some(1)));
    assert!(lock_is_stale(Some(1000)));
}

#[test]
fn silent_nodes_go_offline_and_keep_their_values() {
    let (mut monitor, _config) = monitor_with(&["node-01", "node-02"]);
    apply(&mut monitor, 0, DOCUMENT);
    let late = monitor.snapshot(&ages(&monitor, 500.0));
    assert!(!late.agents[0].online);
    assert_eq!(late.agents[0].host, "node-01");
    monitor.mark_unreachable(1, "keine Verbindung");
    let snapshot = shown(&monitor);
    assert!(snapshot.agents[0].online);
    assert_eq!(snapshot.agents[1].status, "keine Verbindung");
    assert_eq!(snapshot.agents[1].label, "node-02");
}

#[test]
fn repeated_documents_do_not_lengthen_the_history() {
    let (mut monitor, _config) = monitor_with(&["node-01"]);
    let value = read_document(DOCUMENT).unwrap();
    monitor.refresh(0, &value, &Vec::new(), 1, soon());
    monitor.refresh(0, &value, &Vec::new(), 2, soon());
    assert_eq!(shown(&monitor).gen_tok_s.len(), 1);
    let newer = DOCUMENT.replace("1789849808.175", "1789849810.175");
    monitor.refresh(0, &read_document(&newer).unwrap(), &Vec::new(), 3, soon());
    assert_eq!(shown(&monitor).gen_tok_s.len(), 2);
}

#[test]
fn numbers_may_be_texts() {
    let text = r#"{"host":"x","node":{"cpu_pct":"12.5"}}"#;
    let value = read_document(text).unwrap();
    assert_eq!(number_texts(&value), vec!["12.5".to_owned()]);
    let (mut monitor, _config) = monitor_with(&["x"]);
    monitor.apply_value(0, &value, &vec![("12.5".to_owned(), 12.5f32.to_bits())], 1, soon());
    assert_eq!(single(shown(&monitor).agents[0].node.cpu_pct), 12.5);
}

#[test]
fn replies_are_picked_out_of_the_stream() {
    let pushed = SocketEvent::Text("{\"host\":\"x\"}".to_owned());
    assert!(request_step(&pushed, "processes").is_none());
    assert!(fetch_step(&pushed).unwrap().is_ok());
    let reply = SocketEvent::Text("{\"action\":\"processes\",\"ok\":true}".to_owned());
    assert!(request_step(&reply, "processes").unwrap().is_ok());
    assert!(request_step(&reply, "kill").is_none());
    assert!(request_step(&SocketEvent::Closed, "kill").unwrap().is_err());
    assert!(request_step(&SocketEvent::Other, "kill").is_none());
    let loaded = SocketEvent::Text(
        "{\"action\":\"load_model\",\"ok\":true,\"loaded\":[\"a\",\"b\"]}".to_owned(),
    );
    assert_eq!(load_step(&loaded, "a").unwrap().unwrap(), "a geladen (aktiv: a, b)");
    assert!(load_request(11434, "a").contains("\"load_model\""));
}

#[test]
fn long_errors_are_cut() {
    let long = "x".repeat(200);
    let short = short_error(&long);
    assert_eq!(short.chars().count(), 91);
    assert!(short.ends_with('…'));
    assert_eq!(short_error("kurz"), "kurz");
}

#[test]
fn loads_tell_how_they_ended() {
    let mut loader = ModelLoader::start("m");
    assert!(loader.snapshot().running);
    assert_eq!(loader.snapshot().message, "Lade m …");
    loader.finish(Err("zu groß".to_owned()));
    assert_eq!(loader.snapshot().message, "Fehlgeschlagen: zu groß");
    assert!(loader.snapshot().failed);
}
