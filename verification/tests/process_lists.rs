//! Process rows, replies and signals.
use sysmon::commands::{kill_refusal, parse_command, plain_reply, processes_reply, Command, ProcRow};
use sysmon::json::{as_array, as_double, as_natural, as_text, Json, Number};
use sysmon::procfs::{command_line, cpu_counters, owner_of, parse_stat_line, parse_status, process_id, user_names};
use sysmon::procs::{
    delivery_text, filter_and_sort, kill_request, list_request, os_error_text, parse_kill_reply,
    parse_reply, refusal, signal_name, supports_processes, Delivery, LocalProcesses, ProcSampler,
    ProcessList, ProcessTask, RawProcess, SortKey, SIGKILL, SIGTERM,
};

const REPLY: &str = r#"{"ok":true,"action":"processes","ts":1789995563.17,"total":564,
        "cores":16,"processes":[
        {"pid":16005,"ppid":1,"name":"chrome","user":"sysmon","cpu":26.3,"mem_kb":701000,"state":"S","cmd":"/opt/google/chrome/chrome --type=renderer"},
        {"pid":1,"ppid":0,"name":"systemd","user":"root","cpu":0.0,"mem_kb":12000,"state":"S","cmd":"/usr/lib/systemd/systemd"}]}"#;

#[test]
fn parses_a_process_reply() {
    let list = parse_reply(REPLY).expect("Antwort");
    assert_eq!(list.total, 564);
    assert_eq!(list.cores, 16);
    assert_eq!(list.entries.len(), 2);
    assert_eq!(list.entries[0].pid, 16005);
    assert_eq!(list.entries[0].name, "chrome");
    assert_eq!(f32::from_bits(list.entries[0].cpu), 26.3);
    assert_eq!((list.entries[0].mem_kb as f32 / 1024.0).round(), 685.0);
    assert_eq!(list.entries[1].user, "root");
}

#[test]
fn error_replies_become_a_message() {
    let error = parse_reply(r#"{"ok":false,"action":"processes","error":"Prozessliste ist belegt"}"#)
        .expect_err("muss fehlschlagen");
    assert_eq!(error, "Prozessliste ist belegt");
    assert!(parse_reply("kein json").is_err());
}

#[test]
fn parses_a_kill_reply() {
    let ok = parse_kill_reply(r#"{"ok":true,"action":"kill","pid":42,"signal":9}"#).unwrap();
    assert_eq!(ok, "Signal 9 (SIGKILL) an PID 42 gesendet");
    let error = parse_kill_reply(
        r#"{"ok":false,"action":"kill","pid":42,"signal":15,"error":"Prozess existiert nicht mehr"}"#,
    )
    .unwrap_err();
    assert_eq!(error, "Prozess existiert nicht mehr");
}

#[test]
fn filters_and_sorts_rows() {
    let list = parse_reply(REPLY).unwrap();
    let by_cpu = filter_and_sort(&list.entries, "", SortKey::Cpu);
    assert_eq!(by_cpu[0].pid, 16005);
    let by_pid = filter_and_sort(&list.entries, "", SortKey::Pid);
    assert_eq!(by_pid[0].pid, 1);
    let by_name = filter_and_sort(&list.entries, "", SortKey::Name);
    assert_eq!(by_name[0].name, "chrome");
    let by_memory = filter_and_sort(&list.entries, "", SortKey::Memory);
    assert_eq!(by_memory[0].pid, 16005);

    assert_eq!(filter_and_sort(&list.entries, "systemd", SortKey::Cpu).len(), 1);
    assert_eq!(filter_and_sort(&list.entries, "16005", SortKey::Cpu).len(), 1);
    assert_eq!(filter_and_sort(&list.entries, "ROOT", SortKey::Cpu).len(), 1);
    assert_eq!(filter_and_sort(&list.entries, "renderer", SortKey::Cpu).len(), 1);
    assert!(filter_and_sort(&list.entries, "gibtsnicht", SortKey::Cpu).is_empty());
}

#[test]
fn knows_which_agents_support_processes() {
    assert!(!supports_processes("2.1.0"));
    assert!(!supports_processes("2.0.1"));
    assert!(!supports_processes(""));
    assert!(supports_processes("2.2.0"));
    assert!(supports_processes("2.10.0"));
    assert!(supports_processes("3.0.0"));
}

#[test]
fn procs_parses_stat_lines_with_tricky_command_names() {
    let line = "1234 (Web Content) S 1 1234 1234 0 -1 4194560 1 0 0 0 12 34 0 0";
    let stat = parse_stat_line(line).expect("stat");
    assert_eq!(
        (stat.pid, stat.name.as_str(), stat.state.as_str(), stat.ppid),
        (1234, "Web Content", "S", 1)
    );
    let times: (f64, f64) = (stat.utime.parse().unwrap(), stat.stime.parse().unwrap());
    assert_eq!(times, (12.0, 34.0));
    assert!(parse_stat_line("keine klammern").is_none());
}

#[test]
fn main_parses_stat_lines_with_tricky_command_names() {
    // Firefox-style names contain spaces, kernel threads parentheses.
    let line = "1234 (Web Content) S 1 1234 1234 0 -1 4194560 1 0 0 0 12 34 0 0 20 0 1 0";
    let stat = parse_stat_line(line).expect("stat line");
    assert_eq!(stat.pid, 1234);
    assert_eq!(stat.name, "Web Content");
    assert_eq!(stat.state, "S");
    assert_eq!(stat.ppid, 1);
    assert_eq!(stat.utime.parse::<f64>().unwrap(), 12.0);
    assert_eq!(stat.stime.parse::<f64>().unwrap(), 34.0);

    assert!(parse_stat_line("ohne klammern").is_none());
    assert!(parse_stat_line("1 (kurz) S 1").is_none());
}

#[test]
fn reads_uid_and_rss_from_status() {
    let text = "Name:\tbash\nUid:\t1000\t1000\t1000\t1000\nVmRSS:\t  20480 kB\n";
    assert_eq!(parse_status(text), (Some(1000), 20480));
    assert_eq!(parse_status("Name:\tinit\n"), (None, 0));
}

#[test]
fn parses_uid_and_rss_from_status() {
    let text = "Name:\tbash\nUid:\t1000\t1000\t1000\t1000\nVmRSS:\t  20480 kB\n";
    assert_eq!(parse_status(text), (Some(1000), 20480));
    assert_eq!(parse_status("Name:\tinit\n"), (None, 0));
}

const OWN: u32 = 777;

#[test]
fn kill_refusals_name_the_reason() {
    let error = |pid: i64, signal: i64| {
        let reply = kill_refusal(pid, signal, OWN).expect("refused");
        as_text(reply.get("error")).expect("a reason").clone()
    };
    assert_eq!(error(1, libc::SIGTERM as i64), "PID 1 kann nicht beendet werden");
    assert_eq!(
        error(i64::from(OWN), libc::SIGTERM as i64),
        "der Agent kann sich nicht selbst beenden"
    );
    assert_eq!(
        error(4242, libc::SIGUSR1 as i64),
        "nur SIGTERM (15) und SIGKILL (9) sind erlaubt"
    );
    for pid in [4_294_967_295, 4_294_967_297, 2_147_483_648, i64::MAX] {
        assert_eq!(error(pid, libc::SIGKILL as i64), "Prozess existiert nicht mehr");
    }
    assert!(kill_refusal(4242, libc::SIGTERM as i64, OWN).is_none());
    assert!(kill_refusal(2_147_483_647, libc::SIGTERM as i64, OWN).is_none());
}

#[test]
fn refuses_unsafe_signals() {
    assert_eq!(refusal(1, SIGTERM, OWN).unwrap(), "PID 1 kann nicht beendet werden");
    assert_eq!(
        refusal(OWN, SIGKILL, OWN).unwrap(),
        "das Applet kann sich nicht selbst beenden"
    );
    assert_eq!(
        refusal(4242, 1, OWN).unwrap(),
        "nur SIGTERM (15) und SIGKILL (9) sind erlaubt"
    );
    assert_eq!(refusal(u32::MAX, SIGKILL, OWN).unwrap(), "Prozess existiert nicht mehr");
    assert_eq!(refusal(2_147_483_648, SIGTERM, OWN).unwrap(), "Prozess existiert nicht mehr");
    assert!(refusal(4242, SIGKILL, OWN).is_none());
    assert!(refusal(2_147_483_647, SIGTERM, OWN).is_none());
}

#[test]
fn signals_match_the_system() {
    assert_eq!(SIGTERM, libc::SIGTERM);
    assert_eq!(SIGKILL, libc::SIGKILL);
    assert_eq!(signal_name(SIGKILL), "SIGKILL");
    assert_eq!(signal_name(SIGTERM), "SIGTERM");
}

#[test]
fn deliveries_are_told() {
    assert_eq!(
        delivery_text(42, SIGTERM, &Delivery::Sent).unwrap(),
        "Signal 15 (SIGTERM) an PID 42 gesendet"
    );
    let failed = |code: Option<i32>| {
        delivery_text(42, SIGTERM, &Delivery::Failed { code, message: "kaputt".to_owned() })
            .unwrap_err()
    };
    assert_eq!(failed(Some(libc::EPERM)), "keine Berechtigung (EPERM) – nur eigene Prozesse");
    assert_eq!(failed(Some(libc::ESRCH)), "Prozess existiert nicht mehr");
    assert_eq!(failed(Some(libc::EINVAL)), "ungültiges Signal");
    assert_eq!(failed(Some(99)), "kaputt (errno 99)");
    assert_eq!(os_error_text(None, "kaputt"), "kaputt");
}

#[test]
fn equal_rows_keep_a_settled_order() {
    let text = r#"{"ok":true,"processes":[
        {"pid":9,"name":"b","cpu":1.0,"mem_kb":5},
        {"pid":3,"name":"B","cpu":1.0,"mem_kb":5},
        {"pid":4,"name":"a","cpu":2.0,"mem_kb":1}]}"#;
    let list = parse_reply(text).unwrap();
    let pids = |key: SortKey| -> Vec<u32> {
        filter_and_sort(&list.entries, "", key).iter().map(|row| row.pid).collect()
    };
    assert_eq!(pids(SortKey::Cpu), vec![4, 3, 9]);
    assert_eq!(pids(SortKey::Memory), vec![3, 9, 4]);
    assert_eq!(pids(SortKey::Pid), vec![3, 4, 9]);
    assert_eq!(pids(SortKey::Name), vec![4, 3, 9]);
    assert_eq!(SortKey::Cpu.label(), "CPU");
}

#[test]
fn requests_are_understood_by_the_agent() {
    match parse_command(&list_request().into_bytes()) {
        Command::Processes { limit } => assert_eq!(limit, 400),
        other => panic!("{other:?}"),
    }
    match parse_command(&kill_request(42, SIGKILL).into_bytes()) {
        Command::Kill { pid, signal } => assert_eq!((pid, signal), (42, 9)),
        other => panic!("{other:?}"),
    }
    match parse_command(&b"{\"action\":\"ping\"}".to_vec()) {
        Command::Ping => {}
        other => panic!("{other:?}"),
    }
    assert!(matches!(parse_command(&b"{nope".to_vec()), Command::Invalid));
    let unknown = parse_command(&b"{\"action\":\"dance\"}".to_vec());
    assert!(matches!(&unknown, Command::Unknown { action } if action == "dance"));
    assert!(plain_reply(&unknown).is_some());
    assert!(plain_reply(&Command::Processes { limit: 1 }).is_none());
}

fn proc_row(pid: u32, cpu: f64) -> ProcRow {
    ProcRow {
        pid,
        ppid: 1,
        name: format!("p{pid}"),
        user: "u".to_owned(),
        cpu: cpu.to_bits(),
        mem_kb: 10,
        state: "S".to_owned(),
        cmd: "c".to_owned(),
    }
}

#[test]
fn process_replies_list_the_busiest_first() {
    let rows = vec![proc_row(5, 0.5), proc_row(9, 7.5), proc_row(2, 0.5)];
    let reply = processes_reply(&rows, 2, 8, 12.5f64.to_bits());
    assert_eq!(as_natural(reply.get("total")), Some(3));
    assert_eq!(as_natural(reply.get("cores")), Some(8));
    assert_eq!(as_double(reply.get("ts")).map(f64::from_bits), Some(12.5));
    let list = as_array(reply.get("processes")).unwrap();
    assert_eq!(list.len(), 2);
    assert_eq!(as_natural(list[0].get("pid")), Some(9));
    assert_eq!(as_natural(list[1].get("pid")), Some(2));
    // At least one row is always carried.
    let reply = processes_reply(&rows, 0, 8, 0);
    assert_eq!(as_array(reply.get("processes")).unwrap().len(), 1);
}

#[test]
fn scans_read_names_owners_and_commands() {
    let users = user_names("root:x:0:0:root:/root:/bin/bash\n# no\nme:x:1000:1000::/home/me:/bin/sh\n");
    assert_eq!(owner_of(&users, Some(1000)), "me");
    assert_eq!(owner_of(&users, Some(0)), "root");
    assert_eq!(owner_of(&users, Some(4)), "4");
    assert_eq!(command_line(&b"/bin/sh\0-c\0ls\0".to_vec(), "sh"), "/bin/sh -c ls");
    assert_eq!(command_line(&Vec::new(), "kthreadd"), "[kthreadd]");
    assert_eq!(process_id("1234"), Some(1234));
    assert_eq!(process_id("self"), None);
    assert_eq!(
        cpu_counters("cpu  1 2 3\ncpu0 1 1 1\n").unwrap(),
        vec!["1".to_owned(), "2".to_owned(), "3".to_owned()]
    );
    assert!(cpu_counters("intr 5\n").is_none());
}

#[test]
fn samplers_remember_counters() {
    let mut sampler = ProcSampler::new("me:x:1000:1000::/home/me:/bin/sh\n", 4);
    let raw = RawProcess {
        stat: "7 (a b) R 1 7 7 0 -1 4194560 1 0 0 0 12 34 0 0".to_owned(),
        status: Some("Uid:\t1000\t1000\nVmRSS:\t 64 kB\n".to_owned()),
        cmdline: b"a\0b\0".to_vec(),
    };
    let reading = sampler.read(&raw).expect("a process");
    assert_eq!(reading.entry.user, "me");
    assert_eq!(reading.entry.mem_kb, 64);
    assert_eq!(reading.entry.cmd, "a b");
    assert_eq!((reading.utime.as_str(), reading.stime.as_str()), ("12", "34"));
    assert_eq!(sampler.previous(7), None);
    sampler.keep(vec![(7, 46.0f64.to_bits())], 100.0f64.to_bits());
    assert_eq!(sampler.previous(7).map(f64::from_bits), Some(46.0));
    assert_eq!(f64::from_bits(sampler.previous_total()), 100.0);
}

#[test]
fn local_lists_scan_only_while_wanted() {
    let mut local = LocalProcesses::start();
    assert_eq!(local.turn(), (false, 300));
    local.set_active(true);
    assert_eq!(local.turn(), (true, 2000));
    local.accept(parse_reply(REPLY).unwrap());
    assert_eq!(local.snapshot().total, 564);
}

#[test]
fn tasks_end_with_a_list_or_an_answer() {
    let mut task = ProcessTask::pending();
    assert!(task.snapshot().running);
    task.list_done(Ok(REPLY.to_owned()));
    let done = task.snapshot();
    assert!(!done.running);
    assert_eq!(done.list.unwrap().total, 564);
    let mut task = ProcessTask::pending();
    task.list_done(Err("keine Verbindung".to_owned()));
    assert_eq!(task.snapshot().list.unwrap().error.as_deref(), Some("keine Verbindung"));
    let mut task = ProcessTask::pending();
    task.kill_done(Ok("kaputt".to_owned()));
    let told = task.snapshot().kill.unwrap().unwrap_err();
    assert!(told.starts_with("ungültige Antwort: "));
    assert!(told.len() > "ungültige Antwort: ".len());
    assert!(ProcessList::default().entries.is_empty());
}

#[test]
fn numbers_of_a_reply_keep_their_kind() {
    let value = sysmon::spark::read_document("[1, -2, 2.5]").unwrap();
    match value {
        Json::Array(items) => {
            assert!(matches!(items[0], Json::Number(Number::Natural(1))));
            assert!(matches!(items[1], Json::Number(Number::Negative(-2))));
            assert!(matches!(items[2], Json::Number(Number::Double(bits)) if f64::from_bits(bits) == 2.5));
        }
        other => panic!("{other:?}"),
    }
}
