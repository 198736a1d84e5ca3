//! The applet: messages, pages, layout and the local values.
use sysmon::applet::{Effect, Message, Sysmon};
use sysmon::config::SparkConfig;
use sysmon::install::{
    agent_version_state, askpass_script, compare_versions, exit_code, expected_agent_version,
    scp_arguments, ssh_arguments, upload_target, Action, AgentVersionState, InstallRequest,
    InstallState, InstallStatus, Installer, Outcome, Payload, Sizes,
};
use sysmon::layout::{compact_cpu_label, leader_row, pad_numbers, split_padding};
use sysmon::link::LoadState;
use sysmon::panel::{local_values, panel, popup_header, power_note, Page};
use sysmon::pieces::{Piece, Quantity, Tone};
use sysmon::procs::{parse_reply, ProcessList, SortKey, TaskSnapshot};
use sysmon::remote::{remote_section, Detail};
use sysmon::sensors::{
    cpu_times, is_amdgpu, is_card, is_package, primary_gpu, read_memory, whole_number, CpuStep,
    EnergyStep, Monitor, Sample, HISTORY_LEN,
};
use sysmon::spark::{AgentState, EngineInfo, SparkSnapshot};
use sysmon::startup::{init, install_request_from_args, local_hostname, parse_model_place, parse_pid_signal, Switches};
use sysmon::text;

#[test]
fn versions_are_compared_numerically() {
    assert_eq!(compare_versions("2.0.0", "2.0.0"), std::cmp::Ordering::Equal);
    assert_eq!(compare_versions("2.0", "2.0.0"), std::cmp::Ordering::Equal);
    assert_eq!(compare_versions("1.9", "2.0.0"), std::cmp::Ordering::Less);
    assert_eq!(compare_versions("2.1", "2.0.0"), std::cmp::Ordering::Greater);
    assert_eq!(compare_versions("2.0.10", "2.0.9"), std::cmp::Ordering::Greater);
    assert_eq!(compare_versions("v2.2", "2.1.9"), std::cmp::Ordering::Greater);
}

#[test]
fn agent_state_uses_the_shipped_version() {
    let expected = expected_agent_version();
    assert_eq!(agent_version_state(&expected), AgentVersionState::Current);
    assert_eq!(agent_version_state(""), AgentVersionState::Unknown);
    assert_eq!(agent_version_state("0.9"), AgentVersionState::Outdated);
    assert_eq!(agent_version_state("99.0"), AgentVersionState::AppletOutdated);
}

fn request(password: &str) -> InstallRequest {
    InstallRequest {
        host: "node-09".to_owned(),
        user: "me".to_owned(),
        password: password.to_owned(),
        port: 22,
    }
}

const SIZES: Sizes = Sizes { aarch64: 2048, x86: 4096, python: 1024 };

fn said(text: &str) -> Outcome {
    Outcome::Finished { ok: true, stdout: text.as_bytes().to_vec(), stderr: Vec::new() }
}

#[test]
fn installations_follow_the_protocol() {
    let (mut installer, first) = Installer::start(request("geheim"), SIZES);
    assert!(matches!(first, Action::Remote { secret: None, .. }));
    assert!(installer.needs_askpass());
    let next = installer.advance(&said("x86_64\nme\n1000\nDisabled\n"));
    assert!(matches!(next, Action::Remote { .. }));
    match installer.advance(&said("")) {
        Action::Push { payload, .. } => assert_eq!(payload, Payload::X86),
        other => panic!("{other:?}"),
    }
    assert!(matches!(installer.advance(&said("")), Action::Push { payload: Payload::Unit, .. }));
    assert!(matches!(installer.advance(&said("")), Action::Push { payload: Payload::Script, .. }));
    match installer.advance(&said("")) {
        Action::Remote { command, secret } => {
            assert!(command.starts_with("sudo -S -p '' bash "));
            assert_eq!(secret.as_deref(), Some("geheim"));
        }
        other => panic!("{other:?}"),
    }
    assert!(matches!(installer.advance(&said("ok\n")), Action::Remote { .. }));
    assert!(matches!(installer.advance(&said("state=active listeners=1\n")), Action::Pause { millis: 300 }));
    installer.advance(&said(""));
    let state = installer.snapshot();
    assert!(state.succeeded() && state.is_finished() && !state.is_running());
    assert_eq!(exit_code(&state), 0);
    assert!(state.lines.iter().all(|line| !line.contains("geheim")));
    assert_eq!(state.tail(1).len(), 1);
}

#[test]
fn full_logs_lose_their_oldest_line() {
    let mut state = InstallState::default();
    for i in 0..400 {
        state.log(&format!("line {i}"));
    }
    assert_eq!(state.lines.len(), 400);
    assert_eq!(state.lines[0], "line 0");
    state.log("one more");
    assert_eq!(state.lines.len(), 400);
    assert_eq!(state.lines[0], "line 1");
    assert_eq!(state.lines[399], "one more");
    assert_eq!(state.status, InstallStatus::Idle);
}

#[test]
fn runs_look_alike_whatever_the_password() {
    let run = |password: &str| {
        let (mut installer, first) = Installer::start(request(password), SIZES);
        let mut actions = vec![first];
        for reply in ["x86_64\nme\n1000\nDisabled\n", "", "", "", "", "ok\n", "state=active listeners=1\n", ""] {
            actions.push(installer.advance(&said(reply)));
        }
        let seen: Vec<String> = actions
            .iter()
            .map(|action| match action {
                Action::Remote { command, .. } => command.clone(),
                other => format!("{other:?}"),
            })
            .collect();
        let state = installer.snapshot();
        (seen, state.lines, state.status)
    };
    assert_eq!(run("geheim"), run("anders"));
    assert_eq!(run("geheim").2, InstallStatus::Done);
}

#[test]
fn installations_fail_with_a_reason() {
    let (installer, action) = Installer::start(InstallRequest::default(), SIZES);
    assert!(matches!(action, Action::Cleanup { .. } | Action::End));
    let state = installer.snapshot();
    assert!(state.is_finished() && !state.succeeded());
    assert!(state.lines.iter().any(|line| line.contains("Kein Hostname angegeben")));
    assert_eq!(exit_code(&state), 1);
    let (mut installer, _) = Installer::start(request(""), SIZES);
    installer.cancel();
    installer.advance(&said("x86_64\nme\n1000\nDisabled\n"));
    assert!(installer.snapshot().lines.iter().any(|line| line.contains("Abgebrochen")));
    let (mut installer, _) = Installer::start(request(""), SIZES);
    installer.advance(&Outcome::Broken { error: "kein ssh".to_owned() });
    assert_eq!(installer.snapshot().status, InstallStatus::Failed);
}

#[test]
fn sudo_failures_are_explained_whatever_the_case() {
    let (mut installer, _) = Installer::start(request(""), SIZES);
    installer.advance(&said("x86_64\nme\n1000\nDisabled\n"));
    for _ in 0..4 {
        installer.advance(&said(""));
    }
    installer.advance(&Outcome::Finished {
        ok: false,
        stdout: Vec::new(),
        stderr: b"SUDO: a password is required\n".to_vec(),
    });
    let last = installer.snapshot().lines.last().unwrap().clone();
    assert!(last.contains("SUDO: a password is required"));
    assert!(last.len() > "SUDO: a password is required".len() + 20, "{last}");
}

#[test]
fn ssh_lines_name_port_and_target() {
    let wish = request("");
    let line = ssh_arguments(&wish, false);
    assert!(line.contains(&"22".to_owned()) && line.contains(&"me@node-09".to_owned()));
    assert!(!ssh_arguments(&wish, true).is_empty());
    assert!(scp_arguments(&wish, false).contains(&"22".to_owned()));
    assert!(upload_target(&wish, "x").starts_with("me@node-09:"));
    assert_eq!(askpass_script("/tmp/s"), "#!/bin/sh\ncat /tmp/s\n");
    assert_eq!(wish.target(), "me@node-09");
}

fn agent(label: &str, host: &str) -> AgentState {
    AgentState {
        label: label.to_owned(),
        host: host.to_owned(),
        online: true,
        version: "2.2.0".to_owned(),
        ..AgentState::default()
    }
}

fn snapshot() -> SparkSnapshot {
    let mut second = agent("node-02:8787", "desk");
    second.engines.push(EngineInfo {
        port: 11434,
        kind: "ollama".to_owned(),
        endpoint: "e".to_owned(),
        models: vec!["a".to_owned(), "b".to_owned()],
        model_count: 2,
        loaded: vec!["b".to_owned()],
        has_metrics: false,
        primary: false,
    });
    SparkSnapshot {
        enabled: true,
        agents: vec![agent("node-01", "alpha"), second],
        ..SparkSnapshot::default()
    }
}

fn switches() -> Switches {
    Switches {
        open_settings: false,
        open_install: None,
        user: Some("me".to_owned()),
        expand_remote: None,
        open_models: None,
        open_procs: false,
        proc_query: None,
        proc_host: None,
        proc_confirm: None,
        proc_kill: None,
    }
}

fn app() -> Sysmon {
    let mut config = SparkConfig::default();
    config.targets = vec!["node-01".to_owned(), "node-02:8787".to_owned()];
    config.token = Some("t".to_owned());
    init(config, snapshot(), "desk".to_owned(), &switches()).0
}

#[test]
fn switches_shape_the_start() {
    let mut e = switches();
    e.expand_remote = Some("node-01, ,node-02".to_owned());
    e.open_models = Some("node-02:8787:11434".to_owned());
    e.proc_confirm = Some("12:15".to_owned());
    e.proc_kill = Some("13:9".to_owned());
    e.open_procs = true;
    let (app, effects) = init(SparkConfig::default(), snapshot(), "desk".to_owned(), &e);
    assert_eq!(app.expanded_remote, vec!["node-01", "node-02"]);
    assert_eq!(app.models_open, Some(("node-02:8787".to_owned(), 11434)));
    assert_eq!(app.proc_confirm, Some((12, 15)));
    assert_eq!(app.install_user, "me");
    assert!(matches!(effects[0], Effect::Scan(true)));
    assert!(matches!(effects[1], Effect::Scan(true)));
    assert!(matches!(effects[2], Effect::KillLocal { pid: 13, signal: 9 }));
    assert_eq!(parse_pid_signal("7"), None);
    assert_eq!(parse_model_place("nope"), None);
    assert_eq!(local_hostname(Some(" h \n"), None), "h");
    assert_eq!(local_hostname(Some("\n"), Some("e")), "e");
    assert_eq!(local_hostname(None, None), "lokal");
}

#[test]
fn installations_can_be_asked_for_by_arguments() {
    let items = |list: &[&str]| list.iter().map(|s| (*s).to_owned()).collect::<Vec<String>>();
    assert!(install_request_from_args(&items(&["--install-user", "x"]), None).is_none());
    let order = install_request_from_args(
        &items(&["--install-agent", "h", "--install-port", "nope", "--install-password-file", "f"]),
        Some("me"),
    )
    .unwrap();
    assert_eq!(order.password_file.as_deref(), Some("f"));
    let request = order.with_password(Some(" p \n"));
    assert_eq!((request.host.as_str(), request.user.as_str()), ("h", "me"));
    assert_eq!((request.password.as_str(), request.port), (" p", 22));
}

#[test]
fn hosts_are_added_and_removed() {
    let mut app = app();
    app.update(Message::HostDraft(" NODE-01 ".to_owned()));
    app.update(Message::AddHost);
    assert_eq!(app.config.targets.len(), 2);
    app.update(Message::HostDraft(" node-03 ".to_owned()));
    app.update(Message::AddHost);
    assert_eq!(app.config.targets[2], "node-03");
    assert_eq!(app.host_draft, "");
    app.update(Message::RemoveHost(0));
    app.update(Message::RemoveHost(9));
    assert_eq!(app.config.targets, vec!["node-02:8787", "node-03"]);
}

#[test]
fn signals_wait_for_confirmation() {
    let mut app = app();
    assert!(app.update(Message::ConfirmSignal).is_empty());
    assert!(app.update(Message::AskSignal(42, 15)).is_empty());
    let effects = app.update(Message::ConfirmSignal);
    assert!(matches!(effects[..], [Effect::KillLocal { pid: 42, signal: 15 }]));
    app.update(Message::SignalSent(Err("nein".to_owned())));
    assert_eq!(app.proc_note, Some(Err("nein".to_owned())));
    app.update(Message::ProcessHost(1));
    app.update(Message::AskSignal(42, 9));
    match &app.update(Message::ConfirmSignal)[..] {
        [Effect::AskKill { target, token, pid, signal }] => {
            assert_eq!((target.as_str(), token.as_deref()), ("node-01", Some("t")));
            assert_eq!((*pid, *signal), (42, 9));
        }
        other => panic!("{other:?}"),
    }
    assert!(app.asking);
    let done = TaskSnapshot { running: false, list: None, kill: Some(Ok("weg".to_owned())) };
    let effects = app.update(Message::Polled { task: Some(done), load: None, keep_popup: false });
    assert!(matches!(effects[..], [Effect::AskProcesses { .. }]));
    assert_eq!(app.proc_note, Some(Ok("weg".to_owned())));
}

#[test]
fn this_machine_is_read_locally_under_any_name() {
    let mut app = app();
    assert!(app.selected_is_local());
    assert_eq!(app.selected_host_label(), "desk (lokal)");
    app.update(Message::ProcessHost(1));
    assert!(!app.selected_is_local());
    assert_eq!(app.selected_host_label(), "alpha");
    let effects = app.update(Message::ProcessHost(2));
    assert!(matches!(effects[..], [Effect::Scan(true)]));
    assert!(app.selected_is_local());
    assert_eq!(app.selected_host_label(), "desk (lokal)");
    app.update(Message::ProcessHost(7));
    assert!(app.selected_is_local());
    assert!(app.selected_agent_ready());
}

#[test]
fn popups_open_and_close() {
    let mut app = app();
    assert!(matches!(app.update(Message::TogglePopup)[..], [Effect::OpenPopup]));
    app.update(Message::OpenProcesses);
    app.update(Message::PopupOpened(5));
    assert!(app.scanning);
    assert!(app.update(Message::PopupClosed(4)).is_empty());
    assert_eq!(app.popup, Some(5));
    app.update(Message::AskSignal(1, 15));
    assert!(matches!(app.update(Message::PopupClosed(5))[..], [Effect::Scan(false)]));
    assert!(app.popup.is_none() && !app.scanning && app.proc_confirm.is_none());
    app.update(Message::PopupOpened(6));
    assert!(app.scanning);
    app.update(Message::AskSignal(1, 15));
    assert!(matches!(
        app.update(Message::TogglePopup)[..],
        [Effect::ClosePopup(6), Effect::Scan(false)]
    ));
    assert!(app.popup.is_none() && !app.scanning && !app.asking);
    assert_eq!(app.proc_confirm, Some((1, 15)));
    let effects = app.update(Message::Polled { task: None, load: None, keep_popup: true });
    assert!(matches!(effects[..], [Effect::OpenPopup]));
}

#[test]
fn installations_are_adopted_once() {
    let mut app = app();
    app.update(Message::InstallHost(" node-09 ".to_owned()));
    app.update(Message::InstallPassword("geheim".to_owned()));
    app.update(Message::InstallPort("x".to_owned()));
    match &app.update(Message::StartInstall)[..] {
        [Effect::Install(request)] => {
            assert_eq!(request.host, "node-09");
            assert_eq!(request.password, "geheim");
            assert_eq!(request.port, 22);
        }
        other => panic!("{other:?}"),
    }
    assert_eq!(app.install_password, "");
    assert!(app.update(Message::StartInstall).is_empty());
    let done = || Some(InstallState { lines: vec!["Fertig".to_owned()], status: InstallStatus::Done });
    let effects = app.update(Message::Tick { snapshot: snapshot(), install: done() });
    assert!(matches!(effects[..], [Effect::SaveNode]));
    assert_eq!(app.config.targets[2], "node-09:8787");
    assert!(app.update(Message::Tick { snapshot: snapshot(), install: done() }).is_empty());
    let effects = app.update(Message::NodeSaved(Ok("/etc/x".to_owned())));
    assert!(matches!(effects[..], [Effect::Restart]));
    assert_eq!(app.note.as_deref(), Some("Knoten aufgenommen, gespeichert in /etc/x"));
    assert!(matches!(app.update(Message::CancelInstall)[..], [Effect::CancelInstall]));
    app.update(Message::CloseInstaller);
    assert!(app.settings_open && app.install_host.is_empty());
    assert!(app.auto_install(true).is_empty());
}

#[test]
fn settings_are_saved_and_told() {
    let mut app = app();
    assert!(matches!(app.update(Message::SaveSettings)[..], [Effect::SaveSettings]));
    assert!(app.update(Message::SettingsSaved(Err("voll".to_owned()))).is_empty());
    assert_eq!(app.note.as_deref(), Some("Speichern fehlgeschlagen: voll"));
    let page = app.settings_view();
    assert_eq!(page.note, Some(("Speichern fehlgeschlagen: voll".to_owned(), Tone::Bad)));
    app.update(Message::ToggleSettings);
    assert!(app.note.is_none() && app.settings_open);
    app.update(Message::ToggleSectionOpen);
    assert!(!app.spark_open && !app.config.spark_section_open);
    app.update(Message::ToggleDiscovered);
    app.update(Message::ToggleSharedCache);
    app.update(Message::ToggleLocalCharts);
    assert!(!app.config.use_discovered && !app.config.shared_cache && !app.config.show_local_charts);
}

#[test]
fn nodes_fold_and_unfold() {
    let mut app = app();
    app.update(Message::ToggleRemote("node-01".to_owned()));
    assert_eq!(app.expanded_remote, vec!["node-01"]);
    app.update(Message::ToggleRemote("node-01".to_owned()));
    assert!(app.expanded_remote.is_empty());
}

#[test]
fn updates_close_the_process_page() {
    let mut app = app();
    app.update(Message::OpenProcesses);
    let effects = app.update(Message::UpdateAgent("node-02:8787".to_owned()));
    assert!(matches!(effects[..], [Effect::Scan(false)]));
    assert_eq!(app.install_host, "node-02");
    assert!(app.install_is_update && !app.procs_open);
    assert_eq!(app.page(), Page::Installer);
    let page = app.installer_view();
    assert_eq!(page.title, "Agent aktualisieren");
    assert_eq!(page.status, ("bereit".to_owned(), Tone::Plain));
    assert!(page.empty);
}

const REPLY: &str = r#"{"ok":true,"total":5,"cores":8,"processes":[
    {"pid":7,"ppid":1,"name":"a-very-long-process-name","user":"u","cpu":1.5,"mem_kb":2048,"state":"S","cmd":"run"},
    {"pid":8,"ppid":1,"name":"b","user":"u","cpu":0.5,"mem_kb":1,"state":"R","cmd":"b"}]}"#;

fn shown(line: &[Piece]) -> String {
    line.iter()
        .map(|piece| match piece {
            Piece::Words(s) => s.clone(),
            Piece::Number { value, decimals, width } => {
                let number = match *value {
                    Quantity::Single(bits) => f64::from(f32::from_bits(bits)),
                    Quantity::Sum(a, b) => f64::from(f32::from_bits(a) + f32::from_bits(b)),
                    Quantity::Percent { used, total } => {
                        f64::from(f32::from_bits(used) / f32::from_bits(total) * 100.0)
                    }
                    Quantity::Gib(bits) => f64::from_bits(bits) / 1024.0,
                    Quantity::Share { part, whole } => {
                        f64::from_bits(part) / f64::from_bits(whole) * 100.0
                    }
                    Quantity::Mib(kb) => kb as f64 / 1024.0,
                    Quantity::Minutes(samples) => samples as f64 / 60.0,
                };
                format!("{number:0width$.decimals$}", width = *width as usize, decimals = *decimals as usize)
            }
            Piece::Total(list) => {
                format!("{:.0}", list.iter().map(|bits| f32::from_bits(*bits)).sum::<f32>())
            }
        })
        .collect()
}

#[test]
fn the_process_page_shows_rows_and_questions() {
    let mut app = app();
    let local = parse_reply(REPLY).unwrap();
    app.update(Message::ToggleProcess(7));
    app.update(Message::AskSignal(7, 9));
    app.update(Message::ProcessSort(SortKey::Cpu));
    let page = app.processes_view(&local, true);
    assert_eq!(page.counts, "2 von 5 · 8 Kerne");
    assert_eq!(page.hosts.len(), 3);
    assert_eq!(page.hosts[0].label, "desk (lokal)");
    assert!(page.hosts[0].active && !page.hosts[1].active);
    assert_eq!(page.hosts[1].label, "alpha");
    assert_eq!(page.hosts[2].label, "desk (lokal)");
    let question = page.confirmation.unwrap();
    assert_eq!(question.question, "Signal 9 (SIGKILL) an PID 7 senden?");
    assert_eq!(question.subject, "a-very-long-process-name · desk (lokal)");
    assert_eq!(page.rows[0].name, "a-very-long-pro…");
    assert!(page.rows[0].selected && page.rows[0].details.is_some());
    assert_eq!(
        shown(&page.rows[0].details.as_ref().unwrap().line),
        "Benutzer u · Status S (schlafend) · PPID 1 · RAM 2 MiB"
    );
    assert!(page.rows[1].details.is_none());
    assert!(page.status.is_empty() && page.empty.is_none() && page.hint.is_none());
    app.update(Message::ProcessQuery("gibtsnicht".to_owned()));
    let page = app.processes_view(&local, false);
    assert_eq!(page.empty.as_deref(), Some("Keine Treffer für die Suche."));
    let page = app.processes_view(&ProcessList::default(), false);
    assert_eq!(page.empty.as_deref(), Some("Keine Prozesse gemeldet."));
    assert_eq!(app.find_process(&local, 8).unwrap().cmd, "b");
    assert!(app.find_process(&local, 99).is_none());
}

#[test]
fn old_agents_are_hinted_at() {
    let mut app = app();
    let mut nodes = snapshot();
    nodes.agents[0].version = "2.1.0".to_owned();
    app.update(Message::Restarted(nodes));
    app.update(Message::ProcessHost(1));
    let page = app.processes_view(&ProcessList::default(), true);
    let hint = page.hint.unwrap();
    assert_eq!(hint.target, "node-01");
    assert!(hint.text.contains("meldet Version 2.1.0"));
    assert_eq!(page.status, vec![("Frage alpha ab …".to_owned(), Tone::Warn)]);
}

#[test]
fn the_model_page_lists_models() {
    let mut app = app();
    assert!(app.models_view().is_none());
    app.update(Message::OpenModels("node-02:8787".to_owned(), 11434));
    let page = app.models_view().unwrap();
    assert_eq!(page.title, "Modelle · desk:11434");
    assert_eq!(page.count, "2");
    assert_eq!(page.notes, vec!["Geladen: b"]);
    let rows = page.models.unwrap();
    assert!(rows[1].loaded && !rows[0].loaded && rows[0].loadable);
    match &app.update(Message::LoadModel("a".to_owned()))[..] {
        [Effect::Load { target, port, model }] => {
            assert_eq!((target.as_str(), *port, model.as_str()), ("node-02:8787", 11434, "a"));
        }
        other => panic!("{other:?}"),
    }
    let running = LoadState { running: true, message: "Lade a …".to_owned(), failed: false };
    app.update(Message::Polled { task: None, load: Some(running), keep_popup: false });
    assert_eq!(app.models_view().unwrap().status, Some(("Lade …".to_owned(), Tone::Warn)));
    assert_eq!(app.page(), Page::Models);
    app.update(Message::CloseModels);
    assert_eq!(app.page(), Page::Values);
}

#[test]
fn the_settings_page_lists_nodes() {
    let mut app = app();
    let mut nodes = snapshot();
    nodes.agents[0].version = "1.0".to_owned();
    app.update(Message::Restarted(nodes));
    app.update(Message::HostDraft("neu".to_owned()));
    app.update(Message::AddHost);
    let page = app.settings_view();
    assert_eq!(page.nodes.len(), 3);
    assert!(page.nodes[0].update && page.nodes[0].state.contains("Update auf 2.2.0 verfügbar"));
    assert_eq!(page.nodes[1].state, "Agent 2.2.0 · aktuell");
    assert_eq!(page.nodes[1].tone, Tone::Good);
    assert_eq!(page.nodes[2].state, "nicht konfiguriert");
    assert!(page.mismatch.unwrap().starts_with("1 Knoten laufen"));
    assert!(page.hosts.contains("(3 Knoten konfiguriert)"));
    assert_eq!(page.engines.len(), 1);
    assert!(page.engines[0].starts_with("↳ "));
}

#[test]
fn remote_nodes_are_summed_up() {
    let mut nodes = snapshot();
    nodes.agents[0].engine.available = true;
    nodes.agents[0].engine.gen_tok_s = 58.4f32.to_bits();
    nodes.agents[0].engine.kv_cache_pct = 7.0f32.to_bits();
    nodes.agents[0].node.gpu_available = true;
    nodes.agents[0].node.gpu_power_w = 118.0f32.to_bits();
    nodes.agents[0].node.gpu_temp_c = 84.0f32.to_bits();
    nodes.agents[0].version = "1.0".to_owned();
    let names = vec![("192.0.2.10".to_owned(), "laptop".to_owned())];
    let section = remote_section(&nodes, true, &names, &vec!["node-01".to_owned()]);
    assert_eq!(shown(&section.detail), "2/2 Agenten · 118 W GPU");
    assert_eq!(
        shown(&section.nodes[0].summary),
        "Engine · 58.4 tok/s · KV 7 % · 118 W · GPU 84 °C · Agent 1.0"
    );
    assert_eq!(section.nodes[0].tone, Tone::Warn);
    assert!(section.nodes[0].open && !section.nodes[1].open);
    assert!(section.nodes[1].details.is_empty());
    assert_eq!(shown(&section.nodes[1].summary), "ollama:11434 · 2 Modelle");
    assert_eq!(section.updates.as_deref(), Some("1 Agent-Update(s) – in den Einstellungen"));
    let rows: Vec<(String, String)> = section.nodes[0]
        .details
        .iter()
        .filter_map(|detail| match detail {
            Detail::Row { label, value, .. } => Some((label.clone(), shown(value))),
            _ => None,
        })
        .collect();
    assert!(rows.contains(&("Token-Rate".to_owned(), "58.4/0.0 tok/s".to_owned())));
    assert!(rows.contains(&("GPU-Temperatur".to_owned(), "84 °C · load 0.00".to_owned())));
    let off = SparkSnapshot { enabled: false, ..SparkSnapshot::default() };
    let section = remote_section(&off, true, &names, &Vec::new());
    assert_eq!(shown(&section.detail), "deaktiviert");
    assert!(section.nodes.is_empty() && section.empty.is_some());
}

#[test]
fn clients_are_named() {
    let mut nodes = snapshot();
    nodes.agents[1].online = true;
    nodes.agents[1].clients.push(sysmon::spark::ClientConnection { ip: "192.0.2.10".to_owned(), count: 2 });
    nodes.agents[1].clients.push(sysmon::spark::ClientConnection { ip: "192.0.2.11".to_owned(), count: 1 });
    let names = vec![("192.0.2.10".to_owned(), "laptop".to_owned())];
    let section = remote_section(&nodes, true, &names, &vec!["node-02:8787".to_owned()]);
    assert_eq!(shown(&section.detail), "2/2 Agenten · 3 Clients");
    let captions: Vec<String> = section.nodes[1]
        .details
        .iter()
        .filter_map(|detail| match detail {
            Detail::Caption(line) => Some(shown(line)),
            _ => None,
        })
        .collect();
    assert!(captions.contains(&"↳ laptop ×2".to_owned()));
    assert!(captions.contains(&"↳ 192.0.2.11".to_owned()));
    assert!(captions.contains(&"geladen: b".to_owned()));
    nodes.agents[1].online = false;
    nodes.agents[1].status = "weg".to_owned();
    nodes.agents[1].age_s = 20000.0f32.to_bits();
    let section = remote_section(&nodes, true, &names, &vec!["node-02:8787".to_owned()]);
    match &section.nodes[1].details[..] {
        [Detail::Caption(line)] => {
            assert_eq!(shown(line), "Keine Verbindung (weg). Letzter Wert vor 9999 s.");
        }
        other => panic!("{other:?}"),
    }
}

fn sample() -> Sample {
    Sample {
        cpu_load: 9.0f32.to_bits(),
        mem_used: 16.0f32.to_bits(),
        mem_total: 64.0f32.to_bits(),
        vram_used: 1.0f32.to_bits(),
        vram_total: 4.0f32.to_bits(),
        gpu_load: 5.0f32.to_bits(),
        cpu_watts: 40.0f32.to_bits(),
        cpu_watts_available: true,
        gpu_watts: 30.5f32.to_bits(),
    }
}

#[test]
fn the_panel_keeps_its_width() {
    let texts: Vec<String> = panel(&sample()).iter().map(|(_, line)| shown(line)).collect();
    assert_eq!(texts, vec!["09 %", "25 %", "25 %", "070 W", "030 W"]);
    let blind = Sample { cpu_watts_available: false, ..sample() };
    assert_eq!(shown(&panel(&blind)[3].1), "--- W");
    let values = local_values(&blind);
    assert_eq!(values.len(), 7);
    match &values[6] {
        Detail::Row { value, .. } => assert_eq!(shown(value), "30.5 W (nur GPU)"),
        other => panic!("{other:?}"),
    }
    assert!(power_note(&blind).contains("nur für root lesbar"));
    assert_eq!(shown(&popup_header(59)), "59 Werte · 59 s · 1 s Takt");
    assert_eq!(shown(&popup_header(120)), "120 Werte · 2 min · 1 s Takt");
}

#[test]
fn numbers_are_padded() {
    assert_eq!(pad_numbers("16 %"), "0016 %");
    assert_eq!(pad_numbers("11434"), "11434");
    assert_eq!(pad_numbers("3.5 W"), "0003.5 W");
    assert_eq!(pad_numbers("118.42"), "0118.42");
    assert_eq!(pad_numbers("10.0.0.5"), "10.0.0.5");
    assert_eq!(pad_numbers("11434.5"), "11434.5");
    assert_eq!(pad_numbers("a.b"), "a.b");
    assert_eq!(split_padding("0016 %"), ("00".to_owned(), "16 %".to_owned()));
    assert_eq!(split_padding("0000"), ("0000".to_owned(), String::new()));
}

#[test]
fn lines_fill_their_width() {
    let line = leader_row("CPU-Auslastung", "16 %");
    let width = line.label.chars().count() + line.dots + line.padding.chars().count() + line.value.chars().count();
    assert_eq!(width, 49);
    assert_eq!(line.dots, 49 - 14 - 6);
    let cut = leader_row(&"x".repeat(80), "16 %");
    assert!(cut.label.ends_with('…'));
    assert_eq!(cut.label.chars().count(), 42);
    let long = leader_row("Modell", &"y".repeat(60));
    assert_eq!(long.dots, 1);
}

#[test]
fn processor_names_are_shortened() {
    assert_eq!(compact_cpu_label("AMD Ryzen 7 3700X 8-Core Processor"), "AMD Ryzen 7 3700X");
    assert_eq!(compact_cpu_label("ARM Cortex-A725 + Cortex-X925"), "Cortex-A725/X925");
    assert_eq!(compact_cpu_label("Intel(R) Xeon(R) CPU"), "Intel Xeon");
}

#[test]
fn counters_become_loads() {
    assert_eq!(cpu_times("cpu  1 2 3 4 5 6 7 8 9 10\n"), Some((36, 9)));
    assert_eq!(cpu_times("cpu  1 2 3 4\n"), None);
    assert_eq!(cpu_times(""), None);
    let mut monitor = Monitor::new(1000);
    assert_eq!(monitor.cpu_load(Some((100, 50))), CpuStep::Unknown);
    assert_eq!(monitor.cpu_load(Some((200, 75))), CpuStep::Share { busy: 75, total: 100 });
    assert_eq!(monitor.cpu_load(None), CpuStep::Unknown);
    assert_eq!(monitor.cpu_load(Some((201, 80))), CpuStep::Contradiction);
    assert_eq!(read_memory("MemTotal: 100 kB\nMemAvailable: 40 kB\n"), (60, 100));
    assert_eq!(whole_number(" 12\n"), Some(12));
}

#[test]
fn energy_becomes_power() {
    let mut monitor = Monitor::new(1000);
    assert_eq!(monitor.cpu_watts(None, 0), EnergyStep::Unavailable);
    assert_eq!(monitor.cpu_watts(Some(900), 10), EnergyStep::Known(0));
    assert_eq!(
        monitor.cpu_watts(Some(100), 30),
        EnergyStep::Measure { microjoules: 200, nanoseconds: 20 }
    );
    assert_eq!(f32::from_bits(monitor.settle(12.5f32.to_bits(), 100, 30)), 12.5);
    assert_eq!(f32::from_bits(monitor.settle(f32::INFINITY.to_bits(), 100, 40)), 12.5);
    assert_eq!(f32::from_bits(monitor.settle((-1.0f32).to_bits(), 100, 40)), 12.5);
    assert_eq!(monitor.cpu_watts(Some(150), 30), EnergyStep::Known(12.5f32.to_bits()));
}

#[test]
fn the_history_covers_an_hour() {
    let mut monitor = Monitor::new(0);
    for index in 0..(HISTORY_LEN + 5) {
        monitor.tick(Sample { cpu_load: index as u32, ..sample() });
    }
    let history = monitor.history();
    assert_eq!(history.len(), HISTORY_LEN);
    assert_eq!(history[0].cpu_load, 5);
    assert_eq!(monitor.last().cpu_load as usize, HISTORY_LEN + 4);
    monitor.clear_history();
    assert!(monitor.history().is_empty());
    assert_eq!(monitor.last().cpu_load as usize, HISTORY_LEN + 4);
}

#[test]
fn devices_are_told_apart() {
    assert!(is_card("card1") && !is_card("card") && !is_card("card1-DP-1"));
    assert!(is_amdgpu("DRIVER=amdgpu\n") && !is_amdgpu("DRIVER=i915\n"));
    assert!(is_package("intel-rapl:0", "package-0\n"));
    assert!(!is_package("intel-rapl", "package-0") && !is_package("intel-rapl:0:0", "package-0"));
    assert!(!is_package("intel-rapl:0", "core"));
    let sizes = |list: &[f32]| list.iter().map(|v| v.to_bits()).collect::<Vec<u32>>();
    assert_eq!(primary_gpu(&sizes(&[1.0, 4.0, 4.0, 2.0])), 2);
    assert_eq!(primary_gpu(&Vec::new()), 0);
}

#[test]
fn texts_behave_like_the_standard_ones() {
    for s in ["", " a ", "\u{a0}x\u{2003}", "a:b:c", "line\r\nnext\n\nend", "äÖ ß", "\tq"] {
        assert_eq!(text::trim(s), s.trim());
        assert_eq!(text::trim_end(s), s.trim_end());
        assert_eq!(text::split_words(s), s.split_whitespace().collect::<Vec<_>>());
        assert_eq!(text::split_char(s, ':'), s.split(':').collect::<Vec<_>>());
        assert_eq!(text::lines(s), s.lines().collect::<Vec<_>>());
        assert_eq!(text::to_ascii_lower(s), s.to_ascii_lowercase());
        assert_eq!(text::replace(s, "a", "xy"), s.replace("a", "xy"));
        assert_eq!(text::contains(s, "x"), s.contains("x"));
        assert_eq!(text::count(s), s.chars().count());
    }
    for s in ["0", "12", "+7", "-3", "", "x", "99999999999999999999", "4294967295", "4294967296"] {
        assert_eq!(text::parse_u64(s), s.parse::<u64>().ok());
        assert_eq!(text::parse_u32(s), s.parse::<u32>().ok());
        assert_eq!(text::parse_u16(s), s.parse::<u16>().ok());
        assert_eq!(text::parse_i32(s), s.parse::<i32>().ok());
    }
    assert_eq!(text::from_u64(u64::MAX), u64::MAX.to_string());
    assert_eq!(text::from_i64(i64::MIN), i64::MIN.to_string());
    assert_eq!(text::shorten("abcdef", 3), "abc…");
}

#[test]
fn fractions_round_like_the_hardware() {
    for value in [0.0, 1.0, 0.1, 118.42, 1e-40, 1e-50, 3.5e38, 1e300, -2.75, 16777217.0, f64::MIN_POSITIVE] {
        assert_eq!(
            sysmon::ieee::to_single(f64::to_bits(value)),
            (value as f32).to_bits(),
            "{value}"
        );
    }
    assert_eq!(sysmon::ieee::to_single(f64::INFINITY.to_bits()), f32::INFINITY.to_bits());
    for value in [0u64, 1, 20, 18328, 1 << 53, (1 << 53) + 1, u64::MAX] {
        assert_eq!(sysmon::ieee::double_of_unsigned(value), (value as f64).to_bits());
    }
    for value in [0.0f32, 3.9, -1.0, 5e9, 1e30, f32::NAN] {
        assert_eq!(sysmon::ieee::to_u32(value.to_bits()), value as u32);
        assert_eq!(sysmon::ieee::to_u64(value.to_bits()), value as u64);
    }
    assert!(sysmon::ieee::lt((-1.0f32).to_bits(), 0.5f32.to_bits()));
    assert!(sysmon::ieee::ge(0.0f32.to_bits(), (-0.0f32).to_bits()));
    assert!(!sysmon::ieee::ge(f32::NAN.to_bits(), 0));
}
