//! The node agent: sockets, frames, commands, engines and the pushed document.
use sysmon::agent::{bind_plan, bound_text, help_text, parse_args, push_step, under_demand, version_text, watched, Invocation, PushStep};
use sysmon::digest::{base64, sha1};
use sysmon::engines::{
    fallback_engine, generate_body, generate_url, llm_ports, load_refusal, load_reply,
    loaded_models, parse_vllm_metrics, primary, Engine, Page, Probe, ProbeAction,
};
use sysmon::hardware::{
    arm_core_name, cpu_model_name, device_id, fields_accepted, is_card, joint_name, load_fields,
    meminfo_field, number_text, nvidia_fields, parse_nvidia_line, pci_name, vendor_of, Vendor,
};
use sysmon::http::{body_document, body_length, body_text, ends_headers, get_request, port_of_url, post_request, reply_document, split_url};
use sysmon::json::{as_array, as_bool, as_double, as_natural, as_text, Json, Number};
use sysmon::snapshot::{build_snapshot, GpuState, LlmCollector, LlmState, NodeSample, Parts, Scrape};
use sysmon::sockets::{client_connections, decode_address, parse_tcp_table};
use sysmon::spark::{read_document, AgentState};
use sysmon::websocket::{
    can_answer, encode_text_frame, react, read_client_frame, websocket_accept,
    websocket_handshake, Handshake, Reaction, Received,
};

const TABLE: &str = "  sl  local_address rem_address   st tx_queue rx_queue tr tm->when retrnsmt   uid  timeout inode\n \
  0: 00000000:1F40 00000000:0000 0A 00000000:00000000 00:00000000 00000000  1000        0 1 1 0000000000000000 100 0 0 10 0\n \
  1: 0100007F:1F40 0100007F:C350 01 00000000:00000000 00:00000000 00000000  1000        0 2 1 0000000000000000 100 0 0 10 0\n \
  2: 00000000:1F40 9EB2A8C0:A1B2 01 00000000:00000000 00:00000000 00000000  1000        0 3 1 0000000000000000 100 0 0 10 0\n \
  3: 00000000:1F90 9EB2A8C0:A1B3 01 00000000:00000000 00:00000000 00000000  1000        0 4 1 0000000000000000 100 0 0 10 0\n";

#[test]
fn established_clients_are_found_by_port() {
    let rows = parse_tcp_table(TABLE, 8000, false);
    assert_eq!(rows, vec![("192.168.178.158".to_owned(), 1)]);
}

#[test]
fn other_ports_and_states_are_ignored() {
    assert!(parse_tcp_table(TABLE, 9000, false).is_empty());
    let closed = TABLE.replace(" 01 ", " 06 ");
    assert!(parse_tcp_table(&closed, 8000, false).is_empty());
}

#[test]
fn ipv6_addresses_are_decoded() {
    // Loopback in both representations must be filtered out. The kernel
    // stores each 32-bit word little-endian (verified against /proc/net/tcp6).
    let loopback = "  sl  local_address                         remote_address                        st\n \
  0: 00000000000000000000000001000000:1F40 0000000000000000FFFF00000100007F:1F40 01 00000000:00000000 00:00000000 00000000  1000        0 5 1 0000000000000000 100 0 0 10 0\n \
  1: 00000000000000000000000001000000:1F40 00000000000000000000000001000000:1F40 01 00000000:00000000 00:00000000 00000000  1000        0 6 1 0000000000000000 100 0 0 10 0\n";
    assert!(parse_tcp_table(loopback, 8000, true).is_empty());

    // fd00::1 arrives as 000000FD...01000000.
    let client = "  sl  local_address                         remote_address                        st\n \
  0: 00000000000000000000000001000000:1F40 000000FD000000000000000001000000:1F40 01 00000000:00000000 00:00000000 00000000  1000        0 7 1 0000000000000000 100 0 0 10 0\n";
    assert_eq!(
        parse_tcp_table(client, 8000, true),
        vec![("fd00:0:0:0:0:0:0:1".to_owned(), 1)]
    );
}

#[test]
fn only_loopback_addresses_are_left_out() {
    let table = |remote: &str| {
        format!(
            "head\n  0: 00000000000000000000000001000000:1F40 {remote}:1F40 01 00000000:00000000 00:00000000 0 0 0 1\n"
        )
    };
    assert_eq!(
        parse_tcp_table(&table("B80D012000000000000000000100007F"), 8000, true),
        vec![("2001:db8:0:0:0:0:7f00:1".to_owned(), 1)]
    );
    for loopback in [
        "0000000000000000FFFF00000200007F",
        "0000000000000000ffff00000100007F",
        "0000000000000000ffff00000100007f",
    ] {
        assert!(parse_tcp_table(&table(loopback), 8000, true).is_empty());
    }
    assert_eq!(
        parse_tcp_table(&table("0000000000000000FFFF00000A0200C0"), 8000, true),
        vec![("0:0:0:0:0:ffff:c000:20a".to_owned(), 1)]
    );
}

#[test]
fn addresses_are_little_endian_words() {
    assert_eq!(decode_address("0100007F", false).as_deref(), Some("127.0.0.1"));
    assert_eq!(decode_address("0A0200C0", false).as_deref(), Some("192.0.2.10"));
    assert_eq!(decode_address("zz", false), None);
    assert_eq!(decode_address("0100007F", true), None);
}

#[test]
fn connections_are_counted_per_address() {
    let row = |n: u32, remote: &str| {
        format!("  {n}: 00000000:1F40 {remote}:A1B2 01 00000000:00000000 00:00000000 0 0 0 1\n")
    };
    let table = format!(
        "head\n{}{}{}",
        row(0, "0A0200C0"),
        row(1, "0B0200C0"),
        row(2, "0B0200C0")
    );
    assert_eq!(
        client_connections(&table, "", 8000),
        vec![("192.0.2.11".to_owned(), 2), ("192.0.2.10".to_owned(), 1)]
    );
}

#[test]
fn digests_match_known_values() {
    let hex = |bytes: &[u8]| bytes.iter().map(|b| format!("{b:02x}")).collect::<String>();
    assert_eq!(hex(&sha1(&b"abc".to_vec())), "a9993e364706816aba3e25717850c26c9cd0d89d");
    assert_eq!(hex(&sha1(&Vec::new())), "da39a3ee5e6b4b0d3255bfef95601890afd80709");
    assert_eq!(base64(&b"Man".to_vec()), "TWFu");
    assert_eq!(base64(&b"Ma".to_vec()), "TWE=");
    assert_eq!(base64(&b"M".to_vec()), "TQ==");
    assert_eq!(
        websocket_accept("dGhlIHNhbXBsZSBub25jZQ=="),
        "s3pPLMBiTxaQ9kYGzzhZRbK+xOo="
    );
}

#[test]
fn handshakes_need_a_key_and_the_token() {
    let request = "GET /?token=abc HTTP/1.1\r\nHost: x\r\nSec-WebSocket-Key: dGhlIHNhbXBsZSBub25jZQ==\r\n\r\n";
    assert!(can_answer(request, "abc"));
    assert!(!can_answer("Sec-WebSocket-Key: a\r\nX-Sysmon-Token:", "abc"));
    assert!(can_answer("X-Sysmon-Token:", "abc"));
    match websocket_handshake(request, "abc") {
        Handshake::Accepted(answer) => assert!(answer.contains("s3pPLMBiTxaQ9kYGzzhZRbK+xOo=")),
        other => panic!("{other:?}"),
    }
    match websocket_handshake(request, "xyz") {
        Handshake::Refused(answer) => assert!(answer.starts_with("HTTP/1.1 401")),
        other => panic!("{other:?}"),
    }
    match websocket_handshake("GET / HTTP/1.1\r\n\r\n", "") {
        Handshake::Refused(answer) => assert!(answer.starts_with("HTTP/1.1 400")),
        other => panic!("{other:?}"),
    }
    assert!(matches!(websocket_handshake(request, ""), Handshake::Accepted(_)));
}

fn masked(opcode: u8, payload: &[u8]) -> Vec<u8> {
    let mask = [1u8, 2, 3, 4];
    let mut frame = vec![0x80 | opcode, 0x80 | payload.len() as u8];
    frame.extend_from_slice(&mask);
    frame.extend(payload.iter().enumerate().map(|(i, b)| b ^ mask[i % 4]));
    frame
}

#[test]
fn frames_are_read_and_written() {
    assert_eq!(encode_text_frame(&b"hi".to_vec()), vec![0x81, 2, b'h', b'i']);
    let long = encode_text_frame(&vec![7u8; 300]);
    assert_eq!(&long[..4], &[0x81, 126, 1, 44]);
    let huge = encode_text_frame(&vec![7u8; 65536]);
    assert_eq!(&huge[..10], &[0x81, 127, 0, 0, 0, 0, 0, 1, 0, 0]);
    let frame = masked(1, b"hello");
    match read_client_frame(&frame) {
        Received::Frame { opcode, payload, used } => {
            assert_eq!(opcode, 1);
            assert_eq!(payload, b"hello");
            assert_eq!(used, frame.len());
        }
        other => panic!("{other:?}"),
    }
    assert!(matches!(read_client_frame(&frame[..5].to_vec()), Received::More(_)));
    let too_long = vec![0x81, 0xff, 0, 0, 0, 1, 0, 0, 0, 0, 1, 2, 3, 4];
    assert!(matches!(read_client_frame(&too_long), Received::TooLong));
}

#[test]
fn frames_lead_to_reactions() {
    assert!(matches!(react(0x8, &Vec::new()), Reaction::Close));
    match react(0x9, &vec![1, 2]) {
        Reaction::Pong(frame) => assert_eq!(frame, vec![0x8a, 2, 1, 2]),
        other => panic!("{other:?}"),
    }
    assert!(matches!(react(0x1, &Vec::new()), Reaction::Command));
    assert!(matches!(react(0x2, &Vec::new()), Reaction::Ignore));
}

#[test]
fn http_is_spoken_plainly() {
    let address = split_url("http://127.0.0.1:8000/metrics").unwrap();
    assert_eq!((address.authority.as_str(), address.path.as_str()), ("127.0.0.1:8000", "/metrics"));
    assert_eq!(split_url("http://a").unwrap().path, "/");
    assert!(split_url("https://a").is_none());
    assert!(get_request(&address).starts_with("GET /metrics HTTP/1.0\r\nHost: 127.0.0.1:8000\r\n"));
    let post = post_request(&address, "{}");
    assert!(post.starts_with("POST /metrics HTTP/1.0\r\n"));
    assert!(post.ends_with("\r\n\r\n{}"));
    let headers = vec!["Content-Length: 12\r\n".to_owned()];
    assert_eq!(body_length("HTTP/1.0 200 OK", &headers, 100), Some(12));
    assert_eq!(body_length("HTTP/1.0 200 OK", &Vec::new(), 100), Some(100));
    assert_eq!(body_length("HTTP/1.0 404 No", &headers, 100), None);
    assert!(ends_headers("\r\n"));
    assert!(!ends_headers("a: b\r\n"));
    assert_eq!(body_text(&vec![b'a', 0xff]), "a\u{fffd}");
    assert!(body_document(&b"{}".to_vec()).is_some());
    assert!(reply_document(&b"nope".to_vec()).is_none());
    assert_eq!(port_of_url("http://127.0.0.1:8000/metrics"), Some(8000));
    assert_eq!(port_of_url("http://host/"), None);
}

fn document(text: &str) -> Page {
    Page::Document(read_document(text))
}

#[test]
fn ollama_servers_are_recognised() {
    let (mut probe, first) = Probe::start(11434);
    assert!(matches!(first, ProbeAction::Document { url, .. } if url == "http://127.0.0.1:11434/api/tags"));
    let next = probe.advance(&document(r#"{"models":[{"name":"a"},{"name":"b"}]}"#));
    assert!(matches!(next, ProbeAction::Document { url, .. } if url.ends_with("/api/ps")));
    match probe.advance(&document(r#"{"models":[{"name":"b"}]}"#)) {
        ProbeAction::Found(engine) => {
            assert_eq!(engine.kind, "ollama");
            assert_eq!(engine.models, vec!["a", "b"]);
            assert_eq!(engine.loaded, vec!["b"]);
        }
        other => panic!("{other:?}"),
    }
}

#[test]
fn openai_servers_are_recognised() {
    let (mut probe, _) = Probe::start(8000);
    probe.advance(&Page::Document(None));
    let next = probe.advance(&document(r#"{"data":[{"id":"m"}]}"#));
    assert!(matches!(next, ProbeAction::Page { .. }));
    match probe.advance(&Page::Text(Some("vllm:num_requests_running 1".to_owned()))) {
        ProbeAction::Found(engine) => {
            assert_eq!(engine.kind, "vllm");
            assert_eq!(engine.metrics, "http://127.0.0.1:8000/metrics");
        }
        other => panic!("{other:?}"),
    }
    let (mut probe, _) = Probe::start(8001);
    probe.advance(&Page::Document(None));
    probe.advance(&Page::Document(None));
    assert!(matches!(probe.advance(&Page::Document(None)), ProbeAction::Nothing));
    assert!(llm_ports().contains(&11434));
}

fn engine(port: u16, kind: &str, metrics: &str) -> Engine {
    Engine {
        port,
        kind: kind.to_owned(),
        endpoint: format!("http://127.0.0.1:{port}"),
        metrics: metrics.to_owned(),
        models: vec!["m1".to_owned(), "m2".to_owned()],
        loaded: vec!["m1".to_owned()],
    }
}

#[test]
fn models_load_only_into_ollama() {
    let list = vec![engine(8000, "vllm", "u"), engine(11434, "ollama", "")];
    assert!(load_refusal(11434, "m", &list).is_none());
    assert!(load_refusal(8000, "m", &list).is_some());
    assert!(load_refusal(11434, "", &list).is_some());
    assert_eq!(primary(&list).as_deref(), Some("u"));
    let other = fallback_engine("http://127.0.0.1:9000/metrics", 9000);
    assert_eq!(other.endpoint, "http://127.0.0.1:9000");
    assert!(generate_body("m").contains("\"m\""));
    assert_eq!(generate_url(1), "http://127.0.0.1:1/api/generate");
    assert!(loaded_models(None).is_empty());
    let reply = load_reply("m", read_document("{}").as_ref(), &vec!["m".to_owned()]);
    assert_eq!(as_bool(reply.get("ok")), Some(true));
    let failed = load_reply("m", None, &Vec::new());
    assert_eq!(as_bool(failed.get("ok")), Some(false));
}

#[test]
fn metrics_are_read_from_the_page() {
    let body = "# HELP x\nvllm:num_requests_running{model_name=\"m/x\"} 3.0\nother 1\nvllm:num_requests_waiting 2\n";
    let (values, model) = parse_vllm_metrics(body);
    assert_eq!(model, "m/x");
    assert_eq!(
        values,
        vec![
            ("vllm:num_requests_running".to_owned(), "3.0".to_owned()),
            ("vllm:num_requests_waiting".to_owned(), "2".to_owned()),
        ]
    );
}

#[test]
fn arguments_are_read() {
    let items = |list: &[&str]| list.iter().map(|s| (*s).to_owned()).collect::<Vec<String>>();
    let seconds = vec![("5".to_owned(), 5.0f64.to_bits())];
    match parse_args(&items(&["--port", "99", "--push-interval", "5", "--no-discover", "--once"]), &seconds) {
        Invocation::Run(args) => {
            assert_eq!(args.port, 99);
            assert_eq!(f64::from_bits(args.push_interval), 5.0);
            assert_eq!(f64::from_bits(args.gpu_interval), 3.0);
            assert_eq!(f64::from_bits(args.discovery_interval), 60.0);
            assert!(!args.discover);
            assert!(args.once);
        }
        other => panic!("{other:?}"),
    }
    assert!(matches!(parse_args(&items(&["--version"]), &seconds), Invocation::Version));
    assert!(matches!(parse_args(&items(&["-h"]), &seconds), Invocation::Help));
    match parse_args(&items(&["--nope"]), &seconds) {
        Invocation::Error(error) => assert_eq!(error, "unknown argument --nope"),
        other => panic!("{other:?}"),
    }
    match parse_args(&items(&["--port", "x"]), &seconds) {
        Invocation::Error(error) => assert_eq!(error, "--port expects a number"),
        other => panic!("{other:?}"),
    }
    assert!(version_text().starts_with("megatron-sysmon-agent 2."));
    assert!(help_text().contains("--token VALUE"));
}

#[test]
fn attached_clients_keep_the_agent_sampling() {
    assert_eq!(push_step(0, 50_000, 10), (PushStep::Rest, 10));
    assert_eq!(push_step(2, 50_000, 10), (PushStep::Push, 50_000));
    assert!(watched(1, 50_000, 10));
    assert!(!watched(0, 50_000, 10));
    assert!(watched(0, 50_000, 49_000));
}

#[test]
fn demand_outlasts_the_last_client() {
    assert!(under_demand(10_000, 9_000));
    assert!(under_demand(19_999, 10_000));
    assert!(!under_demand(20_000, 10_000));
    assert!(under_demand(5, 10));
    assert_eq!(bind_plan("0.0.0.0"), vec!["::", "0.0.0.0"]);
    assert_eq!(bind_plan("10.0.0.1"), vec!["10.0.0.1"]);
    assert_eq!(bound_text("::", 8787), "[::]:8787");
}

#[test]
fn processors_have_readable_names() {
    assert_eq!(
        cpu_model_name("processor : 0\nmodel name\t: AMD Ryzen 7\n", &Vec::new()),
        "AMD Ryzen 7"
    );
    let arm = "CPU part\t: 0xd87\nCPU part\t: 0xd85\nCPU part\t: 0xd87\n";
    assert_eq!(cpu_model_name(arm, &Vec::new()), "ARM Cortex-A725 + Cortex-X925");
    assert_eq!(cpu_model_name("", &vec!["Board X\0\n".to_owned()]), "Board X\0");
    assert_eq!(cpu_model_name("", &vec!["Board X\0".to_owned()]), "Board X");
    assert_eq!(cpu_model_name("", &Vec::new()), "CPU");
    assert_eq!(arm_core_name("0xd08").as_deref(), Some("Cortex-A72"));
    assert_eq!(arm_core_name("0xfff"), None);
}

#[test]
fn gpus_are_read() {
    let fields = &nvidia_fields()[1];
    let reading = parse_nvidia_line("NVIDIA GB10, 42, 61, [N/A], 100.5 MiB", fields).unwrap();
    assert_eq!(reading.name, "NVIDIA GB10");
    assert_eq!(reading.util_pct.as_deref(), Some("42"));
    assert_eq!(reading.vram_used_mib.as_deref(), Some(""));
    assert_eq!(reading.vram_total_mib.as_deref(), Some("100.5"));
    assert!(reading.power_w.is_none());
    assert!(parse_nvidia_line("a, b", fields).is_none());
    assert_eq!(number_text("11.56 W"), "11.56");
    assert!(fields_accepted(true, &b"x\n".to_vec()));
    assert!(!fields_accepted(true, &b" \n".to_vec()));
    assert!(is_card("card0") && !is_card("card0-DP-1") && !is_card("renderD128"));
    assert_eq!(vendor_of("0x1002\n"), Some(Vendor::Amd));
    assert_eq!(vendor_of("0x8086"), Some(Vendor::Intel));
    assert_eq!(vendor_of("0x10de"), None);
    assert_eq!(device_id(" 0xABC\n"), "0xabc");
    let lspci = b"c4:00.0 \"Display\" \"AMD\" \"Strix Halo\" -r\n".to_vec();
    assert_eq!(pci_name(Some(&lspci), "0x1", Vendor::Amd), "Strix Halo");
    let plain = b"c4:00.0 \"Display\" \"AMD\" \"Device 1586\"\n".to_vec();
    assert_eq!(pci_name(Some(&plain), "0x1", Vendor::Amd), "AMD Device 1586");
    assert_eq!(pci_name(None, "0x1", Vendor::Intel), "Intel GPU 0x1");
    assert_eq!(joint_name(&vec!["a".to_owned(), "b".to_owned()]), "a (+1)");
    assert_eq!(meminfo_field("MemTotal:  100 kB\n", "MemTotal:").as_deref(), Some("100"));
    assert_eq!(load_fields("0.1 0.2 0.3 1/2 3\n"), vec!["0.1", "0.2", "0.3"]);
}

#[test]
fn collectors_rest_without_demand() {
    let mut llm = LlmCollector::start("");
    assert_eq!(llm.sample().error, "noch nicht gelesen");
    assert!(matches!(llm.plan(true), Scrape::Rest));
    assert_eq!(llm.sample().error, "kein lokaler LLM-Endpunkt gefunden");
    llm.adopt("http://x/metrics");
    assert_eq!(llm.sample().error, "");
    assert!(matches!(llm.plan(true), Scrape::Read(url) if url == "http://x/metrics"));
    let state = LlmState { available: true, ..llm.sample() };
    llm.receive(1, vec![("a".to_owned(), 2)], state);
    assert!(llm.previous().is_some());
    assert!(matches!(llm.plan(false), Scrape::Rest));
    assert!(llm.previous().is_none());
    assert!(llm.sample().available);
    llm.miss();
    assert_eq!(llm.sample().reason, "no-endpoint");
    assert_eq!(llm.current_url(), "http://x/metrics");
}

fn bits(value: f64) -> u64 {
    value.to_bits()
}

fn parts() -> Parts {
    let mut llm = LlmCollector::start("u");
    llm.miss();
    Parts {
        version: "2.2.0".to_owned(),
        host: "node-09".to_owned(),
        ts: bits(12.5),
        node: NodeSample {
            cpu_pct: bits(12.5),
            cpu_count: 20,
            cpu_model: "ARM Cortex-A725".to_owned(),
            load1: bits(0.5),
            load5: bits(0.25),
            load15: bits(0.125),
            mem_total_gib: bits(128.0),
            mem_used_gib: bits(64.0),
            mem_avail_gib: bits(64.0),
            mem_pct: bits(50.0),
            swap_total_gib: bits(16.0),
            swap_used_gib: bits(8.0),
            uptime_s: bits(1000.0),
        },
        gpu: GpuState {
            available: true,
            name: "NVIDIA GB10".to_owned(),
            util_pct: bits(42.0),
            mem_util_pct: bits(f64::NAN),
            temp_c: bits(61.0),
            power_w: bits(118.5),
            sm_mhz: bits(2411.0),
            vram_used_mib: bits(512.0),
            vram_total_mib: bits(1024.0),
            vendor: "nvidia".to_owned(),
        },
        enabled: true,
        discover: true,
        url: "u".to_owned(),
        engines: vec![engine(8000, "vllm", "u"), engine(11434, "ollama", "")],
        llm: llm.sample(),
        clients: vec![("192.0.2.10".to_owned(), 2)],
    }
}

#[test]
fn the_applet_understands_the_pushed_document() {
    let value = build_snapshot(&parts());
    assert_eq!(as_text(value.get("agent")).unwrap(), "megatron-sysmon");
    assert!(matches!(value.get("gpu").unwrap().get("mem_util_pct"), Some(Json::Null)));
    assert!(matches!(value.get("ts"), Some(Json::Number(Number::Double(_)))));
    let mut agent = AgentState::named("node-09:8787");
    agent.inform(&value, &Vec::new());
    assert_eq!(agent.host, "node-09");
    assert_eq!(agent.version, "2.2.0");
    assert_eq!(agent.node.cpu_count, 20);
    assert_eq!(f32::from_bits(agent.node.cpu_pct), 12.5);
    assert_eq!(f32::from_bits(agent.node.gpu_power_w), 118.5);
    assert_eq!(f64::from_bits(agent.gpu_vram_total_mib), 1024.0);
    assert_eq!(agent.engine.reason, "no-endpoint");
    assert!(!agent.engine.available);
    assert_eq!(agent.engines.len(), 2);
    assert!(agent.engines[0].primary && agent.engines[0].has_metrics);
    assert!(!agent.engines[1].primary && !agent.engines[1].has_metrics);
    assert_eq!(agent.engines[1].loaded, vec!["m1"]);
    assert_eq!(agent.client_port, 8000);
    assert_eq!((agent.clients[0].ip.as_str(), agent.clients[0].count), ("192.0.2.10", 2));
}

#[test]
fn engine_values_are_pushed() {
    let mut all = parts();
    all.llm = LlmState {
        available: true,
        model: "m".to_owned(),
        running: 3,
        gen_tok_s: bits(58.5),
        spec_accept_pct: None,
        ..all.llm
    };
    let value = build_snapshot(&all);
    let block = value.get("vllm").unwrap();
    assert_eq!(as_natural(block.get("running")), Some(3));
    assert_eq!(as_double(block.get("gen_tok_s")).map(f64::from_bits), Some(58.5));
    assert!(matches!(block.get("error"), Some(Json::Null)));
    all.enabled = false;
    let value = build_snapshot(&all);
    assert_eq!(as_text(value.get("vllm").unwrap().get("reason")).unwrap(), "disabled");
    all.engines.clear();
    let value = build_snapshot(&all);
    let clients = value.get("clients").unwrap();
    assert!(matches!(clients.get("port"), Some(Json::Null)));
    assert!(as_array(clients.get("connections")).unwrap().is_empty());
}
