//! The commands that a client sends to the node agent, and the replies.
use crate::ieee;
use crate::json;
use crate::json::{Doc, Json, Number};
use crate::order;
use crate::procs;
use crate::text;
use vstd::prelude::*;

verus! {

/// Maximum number of process rows one reply may carry.
pub const PROC_LIMIT_MAX: usize = 1000;

/// Default row count when the client does not ask for a specific number.
pub const PROC_LIMIT_DEFAULT: usize = 200;

// ---------------------------------------------------------------- commands

/// A command of a client.
#[derive(Debug)]
pub enum Command {
    /// The payload is no JSON.
    Invalid,
    Ping,
    Processes { limit: usize },
    Kill { pid: i64, signal: i64 },
    LoadModel { port: u16, model: String },
    /// Any other action, or none.
    Unknown { action: String },
}

/// A command as characters.
pub enum Order {
    Invalid,
    Ping,
    Processes { limit: usize },
    Kill { pid: i64, signal: i64 },
    LoadModel { port: u16, model: Seq<char> },
    Unknown { action: Seq<char> },
}

impl View for Command {
    type V = Order;

    open spec fn view(&self) -> Order {
        match self {
            Command::Invalid => Order::Invalid,
            Command::Ping => Order::Ping,
            Command::Processes { limit } => Order::Processes { limit: *limit },
            Command::Kill { pid, signal } => Order::Kill { pid: *pid, signal: *signal },
            Command::LoadModel { port, model } => Order::LoadModel { port: *port, model: model@ },
            Command::Unknown { action } => Order::Unknown { action: action@ },
        }
    }
}

/// An integer member, or zero.
pub open spec fn integer_or_zero(doc: Doc, key: Seq<char>) -> i64 {
    match json::integer_of(json::member(doc, key)) {
        Some(n) => n,
        None => 0,
    }
}

/// The command that a document gives.
pub open spec fn order_in(doc: Doc) -> Order {
    let action = json::text_of(json::member(doc, "action"@));
    if action == Some("ping"@) {
        Order::Ping
    } else if action == Some("processes"@) {
        Order::Processes {
            limit: match json::natural_of(json::member(doc, "limit"@)) {
                Some(n) => n as usize,
                None => PROC_LIMIT_DEFAULT,
            },
        }
    } else if action == Some("kill"@) {
        Order::Kill {
            pid: integer_or_zero(doc, "pid"@),
            signal: integer_or_zero(doc, "signal"@),
        }
    } else if action == Some("load_model"@) {
        Order::LoadModel {
            port: json::natural_or_zero(json::member(doc, "port"@)) as u16,
            model: json::text_or(json::member(doc, "model"@), ""@),
        }
    } else {
        Order::Unknown {
            action: match action {
                Some(a) => a,
                None => "-"@,
            },
        }
    }
}

fn member_integer(value: &Json, key: &str) -> (r: i64)
    ensures
        r == integer_or_zero(value@, key@),
{
    match json::as_integer(value.get(key)) {
        Some(n) => n,
        None => 0,
    }
}

/// Reads the document of a command.
pub fn read_command(value: &Json) -> (r: Command)
    ensures
        r@ == order_in(value@),
{
    let action = match json::as_text(value.get("action")) {
        Some(a) => a,
        None => return Command::Unknown { action: text::copy("-") },
    };
    if text::same(action.as_str(), "ping") {
        Command::Ping
    } else if text::same(action.as_str(), "processes") {
        let limit: usize = match json::as_natural(value.get("limit")) {
            Some(n) => n as usize,
            None => PROC_LIMIT_DEFAULT,
        };
        Command::Processes { limit }
    } else if text::same(action.as_str(), "kill") {
        Command::Kill { pid: member_integer(value, "pid"), signal: member_integer(value, "signal") }
    } else if text::same(action.as_str(), "load_model") {
        Command::LoadModel {
            port: json::member_natural(value, "port") as u16,
            model: json::member_text(value, "model", ""),
        }
    } else {
        Command::Unknown { action: text::copy(action.as_str()) }
    }
}

/// The command in the payload of a frame.
pub open spec fn order_of(payload: Seq<u8>) -> Order {
    match json::json_bytes(payload) {
        Some(doc) => order_in(doc),
        None => Order::Invalid,
    }
}

/// Reads the payload of a frame. What encodes a text is read as the text is.
pub fn parse_command(payload: &Vec<u8>) -> (r: Command)
    ensures
        r@ == order_of(payload@),
        forall|t: Seq<char>| #[trigger]
            vstd::utf8::encode_utf8(t) == payload@ ==> r@ == (match json::json_text(t) {
                Some(doc) => order_in(doc),
                None => Order::Invalid,
            }),
{
    match json::parse_bytes(payload) {
        Some(value) => read_command(&value),
        None => Command::Invalid,
    }
}

// ---------------------------------------------------------------- plain replies

/// `{"error": .., "ok": false}`.
pub open spec fn error_doc(error: Seq<char>) -> Doc {
    Doc::Object(seq![("error"@, Doc::Text(error)), ("ok"@, Doc::Bool(false))])
}

/// `{"action": .., "error": .., "ok": false}`.
pub open spec fn refusal_doc(action: Seq<char>, error: Seq<char>) -> Doc {
    Doc::Object(
        seq![
            ("action"@, Doc::Text(action)),
            ("error"@, Doc::Text(error)),
            ("ok"@, Doc::Bool(false)),
        ],
    )
}

/// `{"action": "ping", "ok": true}`.
pub open spec fn ping_doc() -> Doc {
    Doc::Object(seq![("action"@, Doc::Text("ping"@)), ("ok"@, Doc::Bool(true))])
}

pub fn error_reply(error: &str) -> (r: Json)
    ensures
        r@ == error_doc(error@),
{
    let m = json::no_members();
    let m = json::with(m, "error", json::words(error));
    let m = json::with(m, "ok", Json::Bool(false));
    let r = json::object(m);
    assert(r@->Object_0 =~= error_doc(error@)->Object_0);
    r
}

pub fn refusal_reply(action: &str, error: &str) -> (r: Json)
    ensures
        r@ == refusal_doc(action@, error@),
{
    let m = json::no_members();
    let m = json::with(m, "action", json::words(action));
    let m = json::with(m, "error", json::words(error));
    let m = json::with(m, "ok", Json::Bool(false));
    let r = json::object(m);
    assert(r@->Object_0 =~= refusal_doc(action@, error@)->Object_0);
    r
}

pub fn ping_reply() -> (r: Json)
    ensures
        r@ == ping_doc(),
{
    let m = json::no_members();
    let m = json::with(m, "action", json::words("ping"));
    let m = json::with(m, "ok", Json::Bool(true));
    let r = json::object(m);
    assert(r@->Object_0 =~= ping_doc()->Object_0);
    r
}

/// The reply to a command that needs nothing from the machine: to what is no
/// JSON, to a ping and to an unknown action. Other commands have none here.
pub open spec fn plain_doc(order: Order) -> Option<Doc> {
    match order {
        Order::Invalid => Some(error_doc("ungültiges JSON"@)),
        Order::Ping => Some(ping_doc()),
        Order::Unknown { action } => Some(error_doc("unbekannte Aktion: "@ + action)),
        _ => None,
    }
}

pub fn plain_reply(command: &Command) -> (r: Option<Json>)
    ensures
        json::doc_if(r) == plain_doc(command@),
{
    match command {
        Command::Invalid => Some(error_reply("ungültiges JSON")),
        Command::Ping => Some(ping_reply()),
        Command::Unknown { action } => {
            let error = text::cat2("unbekannte Aktion: ", action.as_str());
            Some(error_reply(error.as_str()))
        },
        _ => None,
    }
}

// ---------------------------------------------------------------- kill

/// The reply to a signal: the error is missing where it was sent.
pub open spec fn kill_doc(pid: i64, signal: i64, error: Option<Seq<char>>) -> Doc {
    let number = |n: i64| Doc::Number(json::integer(n as int));
    match error {
        Some(e) => Doc::Object(
            seq![
                ("action"@, Doc::Text("kill"@)),
                ("error"@, Doc::Text(e)),
                ("ok"@, Doc::Bool(false)),
                ("pid"@, number(pid)),
                ("signal"@, number(signal)),
            ],
        ),
        None => Doc::Object(
            seq![
                ("action"@, Doc::Text("kill"@)),
                ("ok"@, Doc::Bool(true)),
                ("pid"@, number(pid)),
                ("signal"@, number(signal)),
            ],
        ),
    }
}

/// Why the agent does not send a signal, if it does not: only two signals are
/// accepted, neither the first process nor the agent itself is signalled, and no
/// process has a number that the system cannot hold.
pub open spec fn kill_refused(pid: i64, signal: i64, own: u32) -> Option<Seq<char>> {
    if signal != procs::SIGTERM && signal != procs::SIGKILL {
        Some("nur SIGTERM (15) und SIGKILL (9) sind erlaubt"@)
    } else if pid <= 1 {
        Some("PID 1 kann nicht beendet werden"@)
    } else if pid == own {
        Some("der Agent kann sich nicht selbst beenden"@)
    } else if pid > i32::MAX {
        Some("Prozess existiert nicht mehr"@)
    } else {
        None
    }
}

fn kill_value(pid: i64, signal: i64, error: Option<&str>) -> (r: Json)
    ensures
        r@ == kill_doc(
            pid,
            signal,
            match error {
                Some(e) => Some(e@),
                None => None,
            },
        ),
{
    let m = json::no_members();
    let m = json::with(m, "action", json::words("kill"));
    let m = match error {
        Some(e) => {
            let m = json::with(m, "error", json::words(e));
            json::with(m, "ok", Json::Bool(false))
        },
        None => json::with(m, "ok", Json::Bool(true)),
    };
    let m = json::with(m, "pid", Json::Number(json::number(pid)));
    let m = json::with(m, "signal", Json::Number(json::number(signal)));
    let r = json::object(m);
    proof {
        let told = kill_doc(
            pid,
            signal,
            match error {
                Some(e) => Some(e@),
                None => None,
            },
        );
        assert(r@->Object_0 =~= told->Object_0);
    }
    r
}

/// The reply that refuses a signal; nothing where the signal may be sent.
pub fn kill_refusal(pid: i64, signal: i64, own: u32) -> (r: Option<Json>)
    ensures
        json::doc_if(r) == (match kill_refused(pid, signal, own) {
            Some(e) => Some(kill_doc(pid, signal, Some(e))),
            None => None,
        }),
{
    if signal != procs::SIGTERM as i64 && signal != procs::SIGKILL as i64 {
        Some(kill_value(pid, signal, Some("nur SIGTERM (15) und SIGKILL (9) sind erlaubt")))
    } else if pid <= 1 {
        Some(kill_value(pid, signal, Some("PID 1 kann nicht beendet werden")))
    } else if pid == own as i64 {
        Some(kill_value(pid, signal, Some("der Agent kann sich nicht selbst beenden")))
    } else if pid > i32::MAX as i64 {
        Some(kill_value(pid, signal, Some("Prozess existiert nicht mehr")))
    } else {
        None
    }
}

/// The agent signals neither init nor itself, sends no signal other than the two
/// accepted ones, and signals only numbers that the system can hold.
pub proof fn the_agent_refuses_unsafe_signals(pid: i64, signal: i64, own: u32)
    ensures
        kill_refused(pid, signal, own) is None <==> (signal == procs::SIGTERM || signal
            == procs::SIGKILL) && 1 < pid <= i32::MAX && pid != own,
{
}

/// What the error of a signal means; `message` is the system's own text.
pub open spec fn kill_error(code: Option<i32>, message: Seq<char>) -> Seq<char> {
    match code {
        Some(n) => if n == procs::EPERM {
            "keine Berechtigung (EPERM)"@
        } else if n == procs::ESRCH {
            "Prozess existiert nicht mehr"@
        } else if n == procs::EINVAL {
            "ungültiges Signal"@
        } else {
            message + " (errno "@ + text::signed_decimal(n as int) + ")"@
        },
        None => message,
    }
}

/// The reply once the system has answered.
pub open spec fn kill_answer(pid: i64, signal: i64, delivery: procs::Delivery) -> Doc {
    match delivery {
        procs::Delivery::Sent => kill_doc(pid, signal, None),
        procs::Delivery::Failed { code, message } => kill_doc(
            pid,
            signal,
            Some(kill_error(code, message@)),
        ),
    }
}

pub fn kill_reply(pid: i64, signal: i64, delivery: &procs::Delivery) -> (r: Json)
    ensures
        r@ == kill_answer(pid, signal, *delivery),
{
    match delivery {
        procs::Delivery::Sent => kill_value(pid, signal, None),
        procs::Delivery::Failed { code, message } => {
            let reason = match code {
                Some(n) => {
                    if *n == procs::EPERM {
                        text::copy("keine Berechtigung (EPERM)")
                    } else if *n == procs::ESRCH {
                        text::copy("Prozess existiert nicht mehr")
                    } else if *n == procs::EINVAL {
                        text::copy("ungültiges Signal")
                    } else {
                        let number = text::from_i64(*n as i64);
                        text::cat4(message.as_str(), " (errno ", number.as_str(), ")")
                    }
                },
                None => text::copy(message.as_str()),
            };
            kill_value(pid, signal, Some(reason.as_str()))
        },
    }
}

// ---------------------------------------------------------------- processes

/// One row of the agent's process table; the share of the processor is
/// double-precision bits.
#[derive(Debug)]
pub struct ProcRow {
    pub pid: u32,
    pub ppid: u32,
    pub name: String,
    pub user: String,
    pub cpu: u64,
    pub mem_kb: u64,
    pub state: String,
    pub cmd: String,
}

/// A row as characters.
pub struct Row {
    pub pid: u32,
    pub ppid: u32,
    pub name: Seq<char>,
    pub user: Seq<char>,
    pub cpu: u64,
    pub mem_kb: u64,
    pub state: Seq<char>,
    pub cmd: Seq<char>,
}

impl View for ProcRow {
    type V = Row;

    open spec fn view(&self) -> Row {
        Row {
            pid: self.pid,
            ppid: self.ppid,
            name: self.name@,
            user: self.user@,
            cpu: self.cpu,
            mem_kb: self.mem_kb,
            state: self.state@,
            cmd: self.cmd@,
        }
    }
}

pub open spec fn row_views(list: Seq<ProcRow>) -> Seq<Row> {
    list.map_values(|r: ProcRow| r@)
}

/// The busiest rows come first, equally busy ones by process id.
pub open spec fn row_places(list: Seq<Row>) -> Seq<order::Place> {
    list.map_values(
        |r: Row|
            (order::Place {
                rank: -ieee::rank_double(r.cpu),
                name: Seq::empty(),
                number: r.pid as int,
            }),
    )
}

/// The number of rows that a reply carries.
pub open spec fn row_limit(limit: usize, found: nat) -> nat {
    let bound = if limit < 1 {
        1nat
    } else if limit > PROC_LIMIT_MAX {
        PROC_LIMIT_MAX as nat
    } else {
        limit as nat
    };
    if found < bound {
        found
    } else {
        bound
    }
}

/// A row as a document.
pub open spec fn row_doc(r: Row) -> Doc {
    Doc::Object(
        seq![
            ("cmd"@, Doc::Text(r.cmd)),
            ("cpu"@, Doc::Number(Number::Double(r.cpu))),
            ("mem_kb"@, Doc::Number(Number::Natural(r.mem_kb))),
            ("name"@, Doc::Text(r.name)),
            ("pid"@, Doc::Number(Number::Natural(r.pid as u64))),
            ("ppid"@, Doc::Number(Number::Natural(r.ppid as u64))),
            ("state"@, Doc::Text(r.state)),
            ("user"@, Doc::Text(r.user)),
        ],
    )
}

/// The rows that a reply carries, in order.
pub open spec fn shown_rows(list: Seq<Row>, limit: usize) -> Seq<Row> {
    order::arrangement(row_places(list)).map_values(|i: int| list[i]).take(
        row_limit(limit, list.len()) as int,
    )
}

/// The reply to a `processes` request; `ts` is the time as double-precision
/// bits.
pub open spec fn processes_doc(list: Seq<Row>, limit: usize, cores: usize, ts: u64) -> Doc {
    Doc::Object(
        seq![
            ("action"@, Doc::Text("processes"@)),
            ("cores"@, Doc::Number(Number::Natural(cores as u64))),
            ("ok"@, Doc::Bool(true)),
            (
                "processes"@,
                Doc::Array(shown_rows(list, limit).map_values(|r: Row| row_doc(r))),
            ),
            ("total"@, Doc::Number(Number::Natural(list.len() as u64))),
            ("ts"@, Doc::Number(Number::Double(ts))),
        ],
    )
}

fn row_value(r: &ProcRow) -> (v: Json)
    ensures
        v@ == row_doc(r@),
{
    let m = json::no_members();
    let m = json::with(m, "cmd", json::words(r.cmd.as_str()));
    let m = json::with(m, "cpu", Json::Number(Number::Double(r.cpu)));
    let m = json::with(m, "mem_kb", Json::Number(Number::Natural(r.mem_kb)));
    let m = json::with(m, "name", json::words(r.name.as_str()));
    let m = json::with(m, "pid", Json::Number(Number::Natural(r.pid as u64)));
    let m = json::with(m, "ppid", Json::Number(Number::Natural(r.ppid as u64)));
    let m = json::with(m, "state", json::words(r.state.as_str()));
    let m = json::with(m, "user", json::words(r.user.as_str()));
    let v = json::object(m);
    assert(v@->Object_0 =~= row_doc(r@)->Object_0);
    v
}

fn row_keys(rows: &Vec<ProcRow>) -> (r: Vec<order::Key>)
    ensures
        order::places(r@) == row_places(row_views(rows@)),
        r@.len() == rows@.len(),
{
    let ghost all = row_places(row_views(rows@));
    let mut keys: Vec<order::Key> = Vec::new();
    let mut i: usize = 0;
    while i < rows.len()
        invariant
            i <= rows@.len(),
            all == row_places(row_views(rows@)),
            order::places(keys@) == all.take(i as int),
            keys@.len() == i,
        decreases rows@.len() - i,
    {
        let ghost before = keys@;
        let nothing = String::new();
        assert(nothing@ =~= Seq::empty());
        keys.push(
            order::Key {
                rank: 0 - ieee::position_double(rows[i].cpu),
                name: nothing,
                number: rows[i].pid,
            },
        );
        assert(row_views(rows@)[i as int] == rows@[i as int]@);
        assert(order::places(keys@) =~= order::places(before).push(all[i as int]));
        assert(order::places(keys@) =~= all.take(i + 1));
        i += 1;
    }
    assert(order::places(keys@) =~= all);
    keys
}

/// Builds the reply to a `processes` request.
pub fn processes_reply(rows: &Vec<ProcRow>, limit: usize, cores: usize, ts: u64) -> (r: Json)
    ensures
        r@ == processes_doc(row_views(rows@), limit, cores, ts),
{
    let ghost list = row_views(rows@);
    let keys = row_keys(rows);
    let order = order::arrange(&keys);
    let found: usize = rows.len();
    let bound: usize = if limit < 1 {
        1
    } else if limit > PROC_LIMIT_MAX {
        PROC_LIMIT_MAX
    } else {
        limit
    };
    let count: usize = if found < bound {
        found
    } else {
        bound
    };
    let ghost shown = shown_rows(list, limit);
    let ghost docs = shown.map_values(|r: Row| row_doc(r));
    let mut items: Vec<Json> = Vec::new();
    let mut i: usize = 0;
    while i < count
        invariant
            i <= count <= found == rows@.len(),
            order@.len() == found,
            forall|k: int| 0 <= k < order@.len() ==> order@[k] < rows@.len(),
            order::indices(order@) == order::arrangement(row_places(list)),
            list == row_views(rows@),
            shown == shown_rows(list, limit),
            shown.len() == count,
            docs == shown.map_values(|r: Row| row_doc(r)),
            json::docs(items@) == docs.take(i as int),
        decreases count - i,
    {
        let ghost before = items@;
        let item = row_value(&rows[order[i]]);
        items.push(item);
        proof {
            assert(order::indices(order@)[i as int] == order@[i as int]);
            assert(shown[i as int] == list[order@[i as int] as int]);
            assert(docs[i as int] == item@);
            assert(json::docs(items@) =~= json::docs(before).push(item@));
            assert(json::docs(items@) =~= docs.take(i + 1));
        }
        i += 1;
    }
    assert(json::docs(items@) =~= docs);
    let m = json::no_members();
    let m = json::with(m, "action", json::words("processes"));
    let m = json::with(m, "cores", Json::Number(Number::Natural(cores as u64)));
    let m = json::with(m, "ok", Json::Bool(true));
    let m = json::with(m, "processes", json::array(items));
    let m = json::with(m, "total", Json::Number(Number::Natural(found as u64)));
    let m = json::with(m, "ts", Json::Number(Number::Double(ts)));
    let r = json::object(m);
    assert(r@->Object_0 =~= processes_doc(list, limit, cores, ts)->Object_0);
    r
}

/// An action of a client is understood by its name, with the members that go
/// with it.
pub proof fn actions_are_understood(doc: Doc, action: Seq<char>)
    requires
        json::member(doc, "action"@) == Some(Doc::Text(action)),
    ensures
        action == "ping"@ ==> order_in(doc) == Order::Ping,
        action == "processes"@ ==> (order_in(doc) matches Order::Processes { limit } && {
            &&& json::member(doc, "limit"@) is None ==> limit == 200
            &&& json::member(doc, "limit"@) matches Some(Doc::Number(Number::Natural(n))) ==> (n
                <= u32::MAX ==> limit == n)
        }),
        action == "kill"@ ==> (order_in(doc) matches Order::Kill { pid, signal } && {
            &&& json::member(doc, "pid"@) matches Some(Doc::Number(Number::Natural(n))) ==> (n
                <= i64::MAX ==> pid == n)
            &&& json::member(doc, "pid"@) matches Some(Doc::Number(Number::Negative(n))) ==> pid
                == n
            &&& json::member(doc, "pid"@) is None ==> pid == 0
            &&& json::member(doc, "signal"@) matches Some(Doc::Number(Number::Natural(n))) ==> (n
                <= i64::MAX ==> signal == n)
            &&& json::member(doc, "signal"@) is None ==> signal == 0
        }),
        action == "load_model"@ ==> (order_in(doc) matches Order::LoadModel { port, model } && {
            &&& json::member(doc, "port"@) matches Some(Doc::Number(Number::Natural(n))) ==> (n
                <= u16::MAX ==> port == n)
            &&& json::member(doc, "model"@) matches Some(Doc::Text(s)) ==> model == s
        }),
        action != "ping"@ && action != "processes"@ && action != "kill"@ && action != "load_model"@
            ==> order_in(doc) == (Order::Unknown { action }),
{
    reveal_strlit("ping");
    reveal_strlit("processes");
    reveal_strlit("kill");
    reveal_strlit("load_model");
    assert("ping"@.len() == 4 && "processes"@.len() == 9 && "kill"@.len() == 4
        && "load_model"@.len() == 10);
    assert("ping"@[0] == 'p' && "kill"@[0] == 'k');
}

proof fn lemma_short_members(a: Doc, b: Doc, c: Doc)
    ensures
        ({
            let two = Doc::Object(seq![("error"@, a), ("ok"@, b)]);
            let three = Doc::Object(seq![("action"@, a), ("error"@, b), ("ok"@, c)]);
            let ping = Doc::Object(seq![("action"@, a), ("ok"@, b)]);
            &&& json::member(two, "error"@) == Some(a)
            &&& json::member(two, "ok"@) == Some(b)
            &&& json::member(three, "action"@) == Some(a)
            &&& json::member(three, "error"@) == Some(b)
            &&& json::member(three, "ok"@) == Some(c)
            &&& json::member(ping, "action"@) == Some(a)
            &&& json::member(ping, "ok"@) == Some(b)
        }),
{
    reveal_strlit("action");
    reveal_strlit("error");
    reveal_strlit("ok");
    assert("action"@[0] == 'a' && "error"@[0] == 'e' && "ok"@[0] == 'o');
    reveal_with_fuel(json::lookup, 4);
    let two = seq![("error"@, a), ("ok"@, b)];
    let three = seq![("action"@, a), ("error"@, b), ("ok"@, c)];
    let ping = seq![("action"@, a), ("ok"@, b)];
    assert(two.drop_first()[0] == two[1]);
    assert(ping.drop_first()[0] == ping[1]);
    assert(three.drop_first()[0] == three[1]);
    assert(three.drop_first().drop_first()[0] == three[2]);
}

/// What is no JSON and what is no known action is answered with an error; a ping
/// is answered with a success.
pub proof fn plain_commands_are_answered(action: Seq<char>, error: Seq<char>)
    ensures
        plain_doc(Order::Invalid) matches Some(doc) && json::member(doc, "ok"@) == Some(
            Doc::Bool(false),
        ) && json::member(doc, "error"@) == Some(Doc::Text("ungültiges JSON"@)),
        plain_doc(Order::Ping) matches Some(doc) && json::member(doc, "ok"@) == Some(
            Doc::Bool(true),
        ) && json::member(doc, "action"@) == Some(Doc::Text("ping"@)),
        plain_doc(Order::Unknown { action }) matches Some(doc) && json::member(doc, "ok"@) == Some(
            Doc::Bool(false),
        ) && json::member(doc, "error"@) == Some(Doc::Text("unbekannte Aktion: "@ + action)),
        json::member(refusal_doc(action, error), "ok"@) == Some(Doc::Bool(false)),
        json::member(refusal_doc(action, error), "error"@) == Some(Doc::Text(error)),
        json::member(refusal_doc(action, error), "action"@) == Some(Doc::Text(action)),
{
    lemma_short_members(Doc::Text("ungültiges JSON"@), Doc::Bool(false), Doc::Null);
    lemma_short_members(Doc::Text("ping"@), Doc::Bool(true), Doc::Null);
    lemma_short_members(Doc::Text("unbekannte Aktion: "@ + action), Doc::Bool(false), Doc::Null);
    lemma_short_members(Doc::Text(action), Doc::Text(error), Doc::Bool(false));
}

/// Each refusal of the agent names its reason.
pub proof fn agent_refusals_name_the_reason(pid: i64, signal: i64, own: u32)
    ensures
        signal != 9 && signal != 15 ==> kill_refused(pid, signal, own) == Some(
            "nur SIGTERM (15) und SIGKILL (9) sind erlaubt"@,
        ),
        (signal == 9 || signal == 15) && pid <= 1 ==> kill_refused(pid, signal, own) == Some(
            "PID 1 kann nicht beendet werden"@,
        ),
        (signal == 9 || signal == 15) && pid > 1 && pid == own ==> kill_refused(pid, signal, own)
            == Some("der Agent kann sich nicht selbst beenden"@),
        (signal == 9 || signal == 15) && 1 < pid <= 0x7fff_ffff && pid != own ==> kill_refused(
            pid,
            signal,
            own,
        ) is None,
{
}

/// What the system says about a signal is told in words.
pub proof fn agent_errors_are_told_in_words(message: Seq<char>, n: i32)
    ensures
        kill_error(Some(1), message) == "keine Berechtigung (EPERM)"@,
        kill_error(Some(3), message) == "Prozess existiert nicht mehr"@,
        kill_error(Some(22), message) == "ungültiges Signal"@,
        n != 1 && n != 3 && n != 22 ==> kill_error(Some(n), message) == message + " (errno "@
            + text::signed_decimal(n as int) + ")"@,
        kill_error(None, message) == message,
{
}

/// The reply to a signal repeats the process and the signal, and is a success
/// exactly where there is no error.
pub proof fn kill_replies_say_what_happened(pid: i64, signal: i64, error: Option<Seq<char>>)
    ensures
        ({
            let doc = kill_doc(pid, signal, error);
            &&& json::member(doc, "action"@) == Some(Doc::Text("kill"@))
            &&& json::member(doc, "ok"@) == Some(Doc::Bool(error is None))
            &&& json::integer_of(json::member(doc, "pid"@)) == Some(pid)
            &&& json::integer_of(json::member(doc, "signal"@)) == Some(signal)
            &&& error matches Some(e) ==> json::member(doc, "error"@) == Some(Doc::Text(e))
        }),
{
    reveal_strlit("action");
    reveal_strlit("error");
    reveal_strlit("ok");
    reveal_strlit("pid");
    reveal_strlit("signal");
    assert("action"@[0] == 'a' && "error"@[0] == 'e' && "ok"@[0] == 'o' && "pid"@[0] == 'p'
        && "signal"@[0] == 's');
    reveal_with_fuel(json::lookup, 6);
    let m = kill_doc(pid, signal, error)->Object_0;
    let b = m.drop_first();
    let c = b.drop_first();
    let d = c.drop_first();
    assert(b[0] == m[1] && c[0] == m[2] && d[0] == m[3]);
    if error is Some {
        assert(d.drop_first()[0] == m[4]);
    }
}

/// A reply carries as many rows as were asked for, at least one and at most a
/// thousand, and no more than there are. They are the busiest, in order, and
/// equally busy ones come by their numbers.
pub proof fn replies_carry_the_busiest(list: Seq<Row>, limit: usize)
    ensures
        ({
            let shown = shown_rows(list, limit);
            &&& shown.len() <= list.len()
            &&& shown.len() <= 1000
            &&& limit >= 1 ==> shown.len() <= limit
            &&& 1 <= limit <= 1000 && list.len() >= limit ==> shown.len() == limit
            &&& limit > 1000 && list.len() >= 1000 ==> shown.len() == 1000
            &&& limit == 0 && list.len() > 0 ==> shown.len() == 1
            &&& list.len() < limit && list.len() <= 1000 ==> shown.len() == list.len()
            &&& forall|i: int, j: int|
                0 <= i < j < shown.len() ==> {
                    ||| ieee::rank_double((#[trigger] shown[i]).cpu) > ieee::rank_double(
                        (#[trigger] shown[j]).cpu,
                    )
                    ||| ieee::rank_double(shown[i].cpu) == ieee::rank_double(shown[j].cpu)
                        && shown[i].pid <= shown[j].pid
                }
        }),
{
    let keys = row_places(list);
    let order = order::arrangement(keys);
    order::arrangement_sorts(keys);
    let shown = shown_rows(list, limit);
    assert(order.len() == list.len());
    assert forall|i: int, j: int| 0 <= i < j < shown.len() implies {
        ||| ieee::rank_double((#[trigger] shown[i]).cpu) > ieee::rank_double(
            (#[trigger] shown[j]).cpu,
        )
        ||| ieee::rank_double(shown[i].cpu) == ieee::rank_double(shown[j].cpu) && shown[i].pid
            <= shown[j].pid
    } by {
        assert(shown[i] == list[order[i]] && shown[j] == list[order[j]]);
        order::lemma_less(keys[order[i]], keys[order[j]], keys[order[j]]);
        assert(!order::less(keys[order[j]], keys[order[i]]));
    }
}

} // verus!
