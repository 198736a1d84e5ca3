//! Process rows: filtering and sorting, the node-agent protocol
//! (`processes` / `kill`) and the two signals the process page offers.
use crate::ieee;
use crate::json;
use crate::json::{Doc, Json, Number};
use crate::link;
use crate::order;
use crate::procfs;
use crate::text;
use vstd::prelude::*;

verus! {

/// Terminate request: the process may clean up and is expected to exit.
pub const SIGTERM: i32 = 15;

/// Hard kill: the kernel removes the process immediately, without cleanup.
pub const SIGKILL: i32 = 9;

/// Rows requested from a node agent.
pub const REMOTE_LIMIT: usize = 400;

/// First agent version that knows the `processes` and `kill` actions.
pub const PROCESS_API_MAJOR: u32 = 2;

pub const PROCESS_API_MINOR: u32 = 2;

// ---------------------------------------------------------------- rows

/// One process row, identical on the local host and on a node agent.
#[derive(Debug)]
pub struct ProcessEntry {
    pub pid: u32,
    pub ppid: u32,
    pub name: String,
    pub user: String,
    /// Share of one core in percent, as single-precision bits; can exceed 100 on
    /// a multi-threaded process.
    pub cpu: u32,
    pub mem_kb: u64,
    pub state: String,
    pub cmd: String,
}

/// A row as characters.
#[verifier::ext_equal]
pub struct Process {
    pub pid: u32,
    pub ppid: u32,
    pub name: Seq<char>,
    pub user: Seq<char>,
    pub cpu: u32,
    pub mem_kb: u64,
    pub state: Seq<char>,
    pub cmd: Seq<char>,
}

impl View for ProcessEntry {
    type V = Process;

    open spec fn view(&self) -> Process {
        Process {
            pid: self.pid,
            ppid: self.ppid,
            name: self.name@,
            user: self.user@,
            cpu: self.cpu,
            mem_kb: self.mem_kb,
            state: self.state@,
            cmd: self.cmd@,
        }
    }
}

/// The rows as characters.
pub open spec fn rows(entries: Seq<ProcessEntry>) -> Seq<Process> {
    entries.map_values(|e: ProcessEntry| e@)
}

/// The word for a state letter.
pub open spec fn state_word(state: Seq<char>) -> Seq<char> {
    if state == "R"@ {
        "läuft"@
    } else if state == "S"@ {
        "schlafend"@
    } else if state == "D"@ {
        "ungestört"@
    } else if state == "I"@ {
        "untätig"@
    } else if state == "T"@ {
        "angehalten"@
    } else if state == "t"@ {
        "getraced"@
    } else if state == "Z"@ {
        "Zombie"@
    } else if state == "X"@ || state == "x"@ {
        "beendet"@
    } else {
        "unbekannt"@
    }
}

impl ProcessEntry {
    /// The state letter as a word.
    pub fn state_label(&self) -> (r: &'static str)
        ensures
            r@ == state_word(self.state@),
    {
        let state = self.state.as_str();
        if text::same(state, "R") {
            "läuft"
        } else if text::same(state, "S") {
            "schlafend"
        } else if text::same(state, "D") {
            "ungestört"
        } else if text::same(state, "I") {
            "untätig"
        } else if text::same(state, "T") {
            "angehalten"
        } else if text::same(state, "t") {
            "getraced"
        } else if text::same(state, "Z") {
            "Zombie"
        } else if text::same(state, "X") || text::same(state, "x") {
            "beendet"
        } else {
            "unbekannt"
        }
    }

    /// A row with the same values.
    pub fn copy(&self) -> (r: ProcessEntry)
        ensures
            r@ == self@,
    {
        ProcessEntry {
            pid: self.pid,
            ppid: self.ppid,
            name: text::copy(self.name.as_str()),
            user: text::copy(self.user.as_str()),
            cpu: self.cpu,
            mem_kb: self.mem_kb,
            state: text::copy(self.state.as_str()),
            cmd: text::copy(self.cmd.as_str()),
        }
    }
}

/// Copies of rows.
pub fn copy_rows(entries: &Vec<ProcessEntry>) -> (r: Vec<ProcessEntry>)
    ensures
        rows(r@) == rows(entries@),
{
    let mut out: Vec<ProcessEntry> = Vec::new();
    let mut i: usize = 0;
    while i < entries.len()
        invariant
            i <= entries@.len(),
            rows(out@) == rows(entries@).take(i as int),
        decreases entries@.len() - i,
    {
        let ghost before = out@;
        out.push(entries[i].copy());
        assert(rows(out@) =~= rows(before).push(entries@[i as int]@));
        i += 1;
    }
    assert(rows(entries@).take(entries@.len() as int) =~= rows(entries@));
    out
}

/// One process list: rows plus the counters of the answering host.
#[derive(Debug)]
pub struct ProcessList {
    pub entries: Vec<ProcessEntry>,
    pub total: usize,
    pub cores: usize,
    pub error: Option<String>,
}

/// A process list as characters.
#[verifier::ext_equal]
pub struct Listing {
    pub entries: Seq<Process>,
    pub total: usize,
    pub cores: usize,
    pub error: Option<Seq<char>>,
}

impl View for ProcessList {
    type V = Listing;

    open spec fn view(&self) -> Listing {
        Listing {
            entries: rows(self.entries@),
            total: self.total,
            cores: self.cores,
            error: match self.error {
                Some(e) => Some(e@),
                None => None,
            },
        }
    }
}

/// The list that says only what went wrong.
pub open spec fn failed_listing(error: Seq<char>) -> Listing {
    Listing { entries: Seq::empty(), total: 0, cores: 0, error: Some(error) }
}

impl Default for ProcessList {
    fn default() -> (r: Self)
        ensures
            r@ == (Listing { entries: Seq::empty(), total: 0, cores: 0, error: None }),
    {
        let r = ProcessList { entries: Vec::new(), total: 0, cores: 0, error: None };
        assert(rows(r.entries@) =~= Seq::empty());
        r
    }
}

impl ProcessList {
    pub fn failed(error: &str) -> (r: Self)
        ensures
            r@ == failed_listing(error@),
    {
        let r = ProcessList {
            entries: Vec::new(),
            total: 0,
            cores: 0,
            error: Some(text::copy(error)),
        };
        assert(rows(r.entries@) =~= Seq::empty());
        r
    }

    /// A list with the same values.
    pub fn copy(&self) -> (r: Self)
        ensures
            r@ == self@,
    {
        ProcessList {
            entries: copy_rows(&self.entries),
            total: self.total,
            cores: self.cores,
            error: match &self.error {
                Some(e) => Some(text::copy(e.as_str())),
                None => None,
            },
        }
    }
}

// ---------------------------------------------------------------- filter and order

/// Column the list is sorted by; the active one is highlighted in the page.
#[derive(Debug, Clone, Copy, PartialEq, Eq, Structural)]
pub enum SortKey {
    Cpu,
    Memory,
    Pid,
    Name,
}

impl SortKey {
    pub fn label(self) -> (r: &'static str)
        ensures
            r@ == (match self {
                SortKey::Cpu => "CPU"@,
                SortKey::Memory => "RAM"@,
                SortKey::Pid => "PID"@,
                SortKey::Name => "Name"@,
            }),
    {
        match self {
            SortKey::Cpu => "CPU",
            SortKey::Memory => "RAM",
            SortKey::Pid => "PID",
            SortKey::Name => "Name",
        }
    }
}

/// Whether a row answers a search: the lower-case query occurs in its number,
/// name, command or user. An empty query is answered by every row.
pub open spec fn answers(process: Process, query: Seq<char>) -> bool {
    let wanted = text::lowercase(text::trimmed(query));
    ||| wanted.len() == 0
    ||| text::occurs(text::decimal(process.pid as nat), wanted)
    ||| text::occurs(text::lowercase(process.name), wanted)
    ||| text::occurs(text::lowercase(process.cmd), wanted)
    ||| text::occurs(text::lowercase(process.user), wanted)
}

fn answers_lower(entry: &ProcessEntry, wanted: &str) -> (r: bool)
    ensures
        r == {
            ||| text::occurs(text::decimal(entry@.pid as nat), wanted@)
            ||| text::occurs(text::lowercase(entry@.name), wanted@)
            ||| text::occurs(text::lowercase(entry@.cmd), wanted@)
            ||| text::occurs(text::lowercase(entry@.user), wanted@)
        },
{
    let pid = text::from_u64(entry.pid as u64);
    if text::contains(pid.as_str(), wanted) {
        return true;
    }
    let name = text::to_lower(entry.name.as_str());
    if text::contains(name.as_str(), wanted) {
        return true;
    }
    let cmd = text::to_lower(entry.cmd.as_str());
    if text::contains(cmd.as_str(), wanted) {
        return true;
    }
    let user = text::to_lower(entry.user.as_str());
    text::contains(user.as_str(), wanted)
}

/// Case-insensitive match of the search text against pid, name, command, user.
pub fn matches(entry: &ProcessEntry, query: &str) -> (r: bool)
    ensures
        r == answers(entry@, query@),
{
    let trimmed = text::trim(query);
    let wanted = text::to_lower(trimmed.as_str());
    text::is_empty(wanted.as_str()) || answers_lower(entry, wanted.as_str())
}

/// The rows that answer a search, in order.
pub open spec fn answering(list: Seq<Process>, query: Seq<char>) -> Seq<Process>
    decreases list.len(),
{
    if list.len() == 0 {
        Seq::empty()
    } else {
        let rest = answering(list.drop_last(), query);
        if answers(list.last(), query) {
            rest.push(list.last())
        } else {
            rest
        }
    }
}

/// What a row is ordered by. The busiest and the largest come first; ties are
/// settled by the process id. Shares of the processor compare by value; a share
/// that is no number ranks by its bit pattern.
pub open spec fn place(process: Process, key: SortKey) -> order::Place {
    let pid = process.pid as int;
    match key {
        SortKey::Cpu => order::Place { rank: -ieee::rank(process.cpu), name: Seq::empty(), number: pid },
        SortKey::Memory => order::Place {
            rank: -(process.mem_kb as int),
            name: Seq::empty(),
            number: pid,
        },
        SortKey::Pid => order::Place { rank: 0, name: Seq::empty(), number: pid },
        SortKey::Name => order::Place {
            rank: 0,
            name: text::lowercase(process.name),
            number: pid,
        },
    }
}

/// The places of a list of rows.
pub open spec fn places(list: Seq<Process>, key: SortKey) -> Seq<order::Place> {
    list.map_values(|p: Process| place(p, key))
}

/// The rows in the order of a key.
pub open spec fn sorted(list: Seq<Process>, key: SortKey) -> Seq<Process> {
    order::arrangement(places(list, key)).map_values(|i: int| list[i])
}

fn key_of(entry: &ProcessEntry, key: SortKey) -> (r: order::Key)
    ensures
        r@ == place(entry@, key),
{
    let nothing = String::new();
    assert(nothing@ =~= Seq::empty());
    match key {
        SortKey::Cpu => order::Key {
            rank: 0 - (ieee::position(entry.cpu) as i128),
            name: nothing,
            number: entry.pid,
        },
        SortKey::Memory => order::Key {
            rank: 0 - (entry.mem_kb as i128),
            name: nothing,
            number: entry.pid,
        },
        SortKey::Pid => order::Key { rank: 0, name: nothing, number: entry.pid },
        SortKey::Name => order::Key {
            rank: 0,
            name: text::to_lower(entry.name.as_str()),
            number: entry.pid,
        },
    }
}

/// Puts rows in the order of a key.
pub fn sort_rows(entries: &Vec<ProcessEntry>, key: SortKey) -> (r: Vec<ProcessEntry>)
    ensures
        rows(r@) == sorted(rows(entries@), key),
        r@.len() == entries@.len(),
{
    let ghost all = rows(entries@);
    let mut keys: Vec<order::Key> = Vec::new();
    let mut i: usize = 0;
    while i < entries.len()
        invariant
            i <= entries@.len(),
            all == rows(entries@),
            order::places(keys@) == places(all, key).take(i as int),
        decreases entries@.len() - i,
    {
        let ghost before = keys@;
        keys.push(key_of(&entries[i], key));
        assert(order::places(keys@) =~= order::places(before).push(place(all[i as int], key)));
        assert(places(all, key).take(i + 1) =~= places(all, key).take(i as int).push(
            place(all[i as int], key),
        ));
        i += 1;
    }
    assert(order::places(keys@) =~= places(all, key));
    assert(keys@.len() == order::places(keys@).len());
    let order = order::arrange(&keys);
    let mut out: Vec<ProcessEntry> = Vec::new();
    let mut k: usize = 0;
    while k < order.len()
        invariant
            k <= order@.len(),
            order@.len() == entries@.len(),
            all == rows(entries@),
            forall|j: int| 0 <= j < order@.len() ==> order@[j] < entries@.len(),
            out@.len() == k,
            forall|j: int| 0 <= j < k ==> (#[trigger] out@[j])@ == all[order@[j] as int],
        decreases order@.len() - k,
    {
        out.push(entries[order[k]].copy());
        k += 1;
    }
    assert(rows(out@) =~= sorted(all, key));
    out
}

/// Filters and sorts the rows for the view.
pub fn filter_and_sort(entries: &Vec<ProcessEntry>, query: &str, key: SortKey) -> (r: Vec<
    ProcessEntry,
>)
    ensures
        rows(r@) == sorted(answering(rows(entries@), query@), key),
{
    let ghost all = rows(entries@);
    let mut kept: Vec<ProcessEntry> = Vec::new();
    let mut i: usize = 0;
    assert(all.take(0) =~= Seq::empty());
    assert(rows(kept@) =~= Seq::empty());
    while i < entries.len()
        invariant
            i <= entries@.len(),
            all == rows(entries@),
            rows(kept@) == answering(all.take(i as int), query@),
        decreases entries@.len() - i,
    {
        let ghost before = kept@;
        assert(all.take(i + 1).drop_last() =~= all.take(i as int));
        assert(all.take(i + 1).last() == entries@[i as int]@);
        if matches(&entries[i], query) {
            kept.push(entries[i].copy());
            assert(rows(kept@) =~= rows(before).push(entries@[i as int]@));
        }
        i += 1;
    }
    assert(all.take(all.len() as int) =~= all);
    sort_rows(&kept, key)
}

/// Sorting keeps every row, drops none and puts them in ascending order of
/// their places; rows with equal places keep their order.
pub proof fn sorting_keeps_the_rows(list: Seq<Process>, key: SortKey)
    ensures
        sorted(list, key).len() == list.len(),
        order::covers(order::arrangement(places(list, key)), list.len() as int),
        forall|i: int, j: int|
            0 <= i < j < list.len() ==> !order::less(
                place(#[trigger] sorted(list, key)[j], key),
                place(#[trigger] sorted(list, key)[i], key),
            ),
        forall|p: Process| list.contains(p) <==> #[trigger] sorted(list, key).contains(p),
{
    let keys = places(list, key);
    let order = order::arrangement(keys);
    order::arrangement_sorts(keys);
    let out = sorted(list, key);
    assert forall|i: int, j: int| 0 <= i < j < list.len() implies !order::less(
        place(#[trigger] out[j], key),
        place(#[trigger] out[i], key),
    ) by {
        assert(out[i] == list[order[i]] && out[j] == list[order[j]]);
        assert(keys[order[i]] == place(out[i], key));
        assert(keys[order[j]] == place(out[j], key));
        order::lemma_less(keys[order[i]], keys[order[j]], keys[order[j]]);
    }
    assert forall|p: Process| list.contains(p) <==> #[trigger] out.contains(p) by {
        if list.contains(p) {
            let k = choose|k: int| 0 <= k < list.len() && list[k] == p;
            assert(order.contains(k));
            let i = choose|i: int| 0 <= i < order.len() && order[i] == k;
            assert(out[i] == p);
        }
        if out.contains(p) {
            let i = choose|i: int| 0 <= i < out.len() && out[i] == p;
            assert(list[order[i]] == p);
        }
    }
}

/// A search keeps exactly the rows that answer it.
pub proof fn searching_keeps_the_answers(list: Seq<Process>, query: Seq<char>)
    ensures
        forall|p: Process|
            #[trigger] answering(list, query).contains(p) <==> list.contains(p) && answers(
                p,
                query,
            ),
    decreases list.len(),
{
    if list.len() > 0 {
        let rest = list.drop_last();
        searching_keeps_the_answers(rest, query);
        let here = answering(list, query);
        let there = answering(rest, query);
        assert forall|p: Process| #[trigger] here.contains(p) <==> list.contains(p) && answers(
            p,
            query,
        ) by {
            assert(there.contains(p) <==> rest.contains(p) && answers(p, query));
            if here.contains(p) {
                let i = choose|i: int| 0 <= i < here.len() && here[i] == p;
                if i < there.len() {
                    assert(there[i] == p);
                    let k = choose|k: int| 0 <= k < rest.len() && rest[k] == p;
                    assert(list[k] == p);
                } else {
                    assert(list[list.len() - 1] == p);
                }
            }
            if list.contains(p) && answers(p, query) {
                let k = choose|k: int| 0 <= k < list.len() && list[k] == p;
                if k < rest.len() {
                    assert(rest[k] == p);
                    let i = choose|i: int| 0 <= i < there.len() && there[i] == p;
                    assert(here[i] == p);
                } else {
                    assert(here[here.len() - 1] == p);
                }
            }
        }
    }
}

/// Whether a version has the numbers of the process API or larger ones in its
/// first two parts.
pub open spec fn knows_processes(version: Seq<char>) -> bool {
    let parts = text::pieces(version, '.');
    if parts.len() < 2 {
        false
    } else {
        match (
            text::unsigned_literal(parts[0], 10, u32::MAX as int),
            text::unsigned_literal(parts[1], 10, u32::MAX as int),
        ) {
            (Some(major), Some(minor)) => major > PROCESS_API_MAJOR || (major == PROCESS_API_MAJOR
                && minor >= PROCESS_API_MINOR),
            _ => false,
        }
    }
}

/// Whether an agent version knows the process actions.
pub fn supports_processes(version: &str) -> (r: bool)
    ensures
        r == knows_processes(version@),
{
    let parts = text::split_char(version, '.');
    assert(text::pieces(version@, '.').len() == parts@.len());
    if parts.len() < 2 {
        return false;
    }
    assert(text::pieces(version@, '.')[0] == parts@[0]@);
    assert(text::pieces(version@, '.')[1] == parts@[1]@);
    match (text::parse_u32(parts[0].as_str()), text::parse_u32(parts[1].as_str())) {
        (Some(major), Some(minor)) => major > PROCESS_API_MAJOR || (major == PROCESS_API_MAJOR
            && minor >= PROCESS_API_MINOR),
        _ => false,
    }
}

// ---------------------------------------------------------------- protocol

/// The row that an object describes; without a process id it is none.
pub open spec fn entry_in(doc: Doc) -> Option<Process> {
    match json::natural_of(json::member(doc, "pid"@)) {
        Some(pid) => Some(
            Process {
                pid: pid as u32,
                ppid: json::natural_or_zero(json::member(doc, "ppid"@)) as u32,
                name: json::text_or(json::member(doc, "name"@), ""@),
                user: json::text_or(json::member(doc, "user"@), ""@),
                cpu: match json::double_in(json::member(doc, "cpu"@)) {
                    Some(bits) => ieee::narrow(bits),
                    None => 0,
                },
                mem_kb: json::natural_or_zero(json::member(doc, "mem_kb"@)),
                state: json::text_or(json::member(doc, "state"@), ""@),
                cmd: json::text_or(json::member(doc, "cmd"@), ""@),
            },
        ),
        None => None,
    }
}

/// The rows that a list of documents describes.
pub open spec fn entries_in(items: Seq<Doc>) -> Seq<Process>
    decreases items.len(),
{
    if items.len() == 0 {
        Seq::empty()
    } else {
        let rest = entries_in(items.drop_last());
        match entry_in(items.last()) {
            Some(process) => rest.push(process),
            None => rest,
        }
    }
}

/// What a reply to a `processes` request says.
pub open spec fn listing_in(doc: Doc) -> Result<Listing, Seq<char>> {
    let action = json::text_of(json::member(doc, "action"@));
    if action is Some && action != Some("processes"@) {
        Err("unerwartete Antwort: "@ + action->0)
    } else if !json::holds(json::member(doc, "ok"@)) {
        Err(
            json::text_or(
                json::member(doc, "error"@),
                "der Agent hat die Prozessliste abgelehnt"@,
            ),
        )
    } else {
        Ok(
            Listing {
                entries: match json::items_of(json::member(doc, "processes"@)) {
                    Some(items) => entries_in(items),
                    None => Seq::empty(),
                },
                total: json::natural_or_zero(json::member(doc, "total"@)) as usize,
                cores: json::natural_or_zero(json::member(doc, "cores"@)) as usize,
                error: None,
            },
        )
    }
}

/// A list or an error as characters.
pub open spec fn listing_of(r: Result<ProcessList, String>) -> Result<Listing, Seq<char>> {
    match r {
        Ok(list) => Ok(list@),
        Err(e) => Err(e@),
    }
}

fn parse_entry(value: &Json) -> (r: Option<ProcessEntry>)
    ensures
        r matches Some(e) ==> entry_in(value@) == Some(e@),
        r is None ==> entry_in(value@) is None,
{
    let pid: u64 = match json::as_natural(value.get("pid")) {
        Some(pid) => pid,
        None => return None,
    };
    let cpu: u32 = match json::as_double(value.get("cpu")) {
        Some(bits) => ieee::to_single(bits),
        None => 0,
    };
    Some(
        ProcessEntry {
            pid: pid as u32,
            ppid: json::member_natural(value, "ppid") as u32,
            name: json::member_text(value, "name", ""),
            user: json::member_text(value, "user", ""),
            cpu,
            mem_kb: json::member_natural(value, "mem_kb"),
            state: json::member_text(value, "state", ""),
            cmd: json::member_text(value, "cmd", ""),
        },
    )
}

fn parse_entries(items: &Vec<Json>) -> (r: Vec<ProcessEntry>)
    ensures
        rows(r@) == entries_in(json::docs(items@)),
{
    let ghost all = json::docs(items@);
    let mut out: Vec<ProcessEntry> = Vec::new();
    let mut i: usize = 0;
    assert(all.take(0) =~= Seq::empty());
    assert(rows(out@) =~= Seq::empty());
    while i < items.len()
        invariant
            i <= items@.len(),
            all == json::docs(items@),
            rows(out@) == entries_in(all.take(i as int)),
        decreases items@.len() - i,
    {
        let ghost before = out@;
        assert(all.take(i + 1).drop_last() =~= all.take(i as int));
        assert(all.take(i + 1).last() == items@[i as int]@);
        if let Some(entry) = parse_entry(&items[i]) {
            out.push(entry);
            assert(rows(out@) =~= rows(before).push(entry@));
        }
        i += 1;
    }
    assert(all.take(all.len() as int) =~= all);
    out
}

/// Reads the document of a reply to a `processes` request.
pub fn read_reply(value: &Json) -> (r: Result<ProcessList, String>)
    ensures
        listing_of(r) == listing_in(value@),
{
    if let Some(action) = json::as_text(value.get("action")) {
        if !text::same(action.as_str(), "processes") {
            return Err(text::cat2("unerwartete Antwort: ", action.as_str()));
        }
    }
    if !json::member_holds(value, "ok") {
        return Err(
            json::member_text(value, "error", "der Agent hat die Prozessliste abgelehnt"),
        );
    }
    let entries = match json::as_array(value.get("processes")) {
        Some(items) => parse_entries(items),
        None => Vec::new(),
    };
    assert(json::items_of(json::member(value@, "processes"@)) is None ==> rows(entries@)
        =~= Seq::empty());
    Ok(
        ProcessList {
            entries,
            total: json::member_natural(value, "total") as usize,
            cores: json::member_natural(value, "cores") as usize,
            error: None,
        },
    )
}

/// Parses the reply of a `processes` request.
pub fn parse_reply(reply: &str) -> (r: Result<ProcessList, String>)
    ensures
        listing_of(r) == (match json::json_text(reply@) {
            Some(doc) => listing_in(doc),
            None => Err("ungültige Antwort: "@ + json::json_complaint(reply@)),
        }),
{
    match json::parse(reply) {
        Ok(value) => read_reply(&value),
        Err(error) => Err(text::cat2("ungültige Antwort: ", error.as_str())),
    }
}

/// Name of the two supported signals, used in messages.
pub open spec fn signal_word(signal: int) -> Seq<char> {
    if signal == SIGKILL {
        "SIGKILL"@
    } else {
        "SIGTERM"@
    }
}

pub fn signal_name(signal: i32) -> (r: &'static str)
    ensures
        r@ == signal_word(signal as int),
{
    if signal == SIGKILL {
        "SIGKILL"
    } else {
        "SIGTERM"
    }
}

/// `Signal 15 (SIGTERM) an PID 42 gesendet`.
pub open spec fn sent_text(signal: int, name: Seq<char>, pid: nat) -> Seq<char> {
    "Signal "@ + text::signed_decimal(signal) + " ("@ + name + ") an PID "@ + text::decimal(pid)
        + " gesendet"@
}

fn sent_message(signal: i64, name: &str, pid: u64) -> (r: String)
    ensures
        r@ == sent_text(signal as int, name@, pid as nat),
{
    let number = text::from_i64(signal);
    let target = text::from_u64(pid);
    let mut out = text::cat5("Signal ", number.as_str(), " (", name, ") an PID ");
    out.append(target.as_str());
    out.append(" gesendet");
    out
}

/// What a reply to a `kill` request says.
pub open spec fn killed(doc: Doc) -> Result<Seq<char>, Seq<char>> {
    let pid = json::natural_or_zero(json::member(doc, "pid"@));
    let signal = match json::integer_of(json::member(doc, "signal"@)) {
        Some(n) => n,
        None => 0,
    };
    if json::holds(json::member(doc, "ok"@)) {
        Ok(sent_text(signal as int, signal_word((signal as i32) as int), pid as nat))
    } else {
        Err(
            json::text_or(
                json::member(doc, "error"@),
                "der Agent hat das Signal abgelehnt"@,
            ),
        )
    }
}

/// Reads the document of a reply to a `kill` request.
pub fn read_kill_reply(value: &Json) -> (r: Result<String, String>)
    ensures
        link::result_of(r) == killed(value@),
{
    let pid: u64 = json::member_natural(value, "pid");
    let signal: i64 = match json::as_integer(value.get("signal")) {
        Some(n) => n,
        None => 0,
    };
    if json::member_holds(value, "ok") {
        Ok(sent_message(signal, signal_name(signal as i32), pid))
    } else {
        Err(json::member_text(value, "error", "der Agent hat das Signal abgelehnt"))
    }
}

/// Parses the reply of a `kill` request.
pub fn parse_kill_reply(reply: &str) -> (r: Result<String, String>)
    ensures
        link::result_of(r) == (match json::json_text(reply@) {
            Some(doc) => killed(doc),
            None => Err("ungültige Antwort: "@ + json::json_complaint(reply@)),
        }),
{
    match json::parse(reply) {
        Ok(value) => read_kill_reply(&value),
        Err(error) => Err(text::cat2("ungültige Antwort: ", error.as_str())),
    }
}

/// The request for the process list.
pub open spec fn list_request_doc() -> Doc {
    Doc::Object(
        seq![
            ("action"@, Doc::Text("processes"@)),
            ("limit"@, Doc::Number(Number::Natural(REMOTE_LIMIT as u64))),
        ],
    )
}

proof fn lemma_list_request()
    ensures
        json::rising(list_request_doc()->Object_0),
        json::whole(list_request_doc()),
        json::canonical(list_request_doc()),
        json::depth(list_request_doc()) < 128,
{
    reveal_strlit("action");
    reveal_strlit("limit");
    assert(text::before("action"@, "limit"@));
    json::lemma_flat(list_request_doc()->Object_0);
}

/// The text of a request for the process list. The agent reads it back as it
/// is.
pub fn list_request() -> (r: String)
    ensures
        r@ == json::json_rendered(list_request_doc()),
        json::json_text(r@) == Some(list_request_doc()),
{
    let members = json::no_members();
    let members = json::with(members, "action", Json::Text(text::copy("processes")));
    let members = json::with(
        members,
        "limit",
        Json::Number(Number::Natural(REMOTE_LIMIT as u64)),
    );
    let value = json::object(members);
    proof {
        assert(value@->Object_0 =~= list_request_doc()->Object_0);
        lemma_list_request();
    }
    json::render(&value)
}

/// The request to signal a process.
pub open spec fn kill_request_doc(pid: u32, signal: i32) -> Doc {
    Doc::Object(
        seq![
            ("action"@, Doc::Text("kill"@)),
            ("pid"@, Doc::Number(Number::Natural(pid as u64))),
            ("signal"@, Doc::Number(json::integer(signal as int))),
        ],
    )
}

proof fn lemma_kill_request(pid: u32, signal: i32)
    ensures
        json::rising(kill_request_doc(pid, signal)->Object_0),
        json::whole(kill_request_doc(pid, signal)),
        json::canonical(kill_request_doc(pid, signal)),
        json::depth(kill_request_doc(pid, signal)) < 128,
{
    reveal_strlit("action");
    reveal_strlit("pid");
    reveal_strlit("signal");
    assert(text::before("action"@, "pid"@));
    assert(text::before("action"@, "signal"@));
    assert(text::before("pid"@, "signal"@));
    json::lemma_flat(kill_request_doc(pid, signal)->Object_0);
}

/// The text of a request to signal a process. The agent reads it back as it is.
pub fn kill_request(pid: u32, signal: i32) -> (r: String)
    ensures
        r@ == json::json_rendered(kill_request_doc(pid, signal)),
        json::json_text(r@) == Some(kill_request_doc(pid, signal)),
{
    let members = json::no_members();
    let members = json::with(members, "action", Json::Text(text::copy("kill")));
    let members = json::with(members, "pid", Json::Number(Number::Natural(pid as u64)));
    let members = json::with(members, "signal", Json::Number(json::number(signal as i64)));
    let value = json::object(members);
    proof {
        assert(value@->Object_0 =~= kill_request_doc(pid, signal)->Object_0);
        lemma_kill_request(pid, signal);
    }
    json::render(&value)
}

// ---------------------------------------------------------------- signals

/// Why a signal is not sent, if it is not: only two signals are offered, and
/// neither the first process nor the applet itself is signalled, and no process
/// has a number that the system cannot hold.
pub open spec fn refused(pid: u32, signal: i32, own: u32) -> Option<Seq<char>> {
    if signal != SIGTERM && signal != SIGKILL {
        Some("nur SIGTERM (15) und SIGKILL (9) sind erlaubt"@)
    } else if pid <= 1 {
        Some("PID 1 kann nicht beendet werden"@)
    } else if pid == own {
        Some("das Applet kann sich nicht selbst beenden"@)
    } else if pid > i32::MAX {
        Some("Prozess existiert nicht mehr"@)
    } else {
        None
    }
}

/// Why a signal to a local process is refused; nothing where it may be sent.
pub fn refusal(pid: u32, signal: i32, own: u32) -> (r: Option<String>)
    ensures
        r matches Some(s) ==> refused(pid, signal, own) == Some(s@),
        r is None ==> refused(pid, signal, own) is None,
{
    if signal != SIGTERM && signal != SIGKILL {
        Some(text::copy("nur SIGTERM (15) und SIGKILL (9) sind erlaubt"))
    } else if pid <= 1 {
        Some(text::copy("PID 1 kann nicht beendet werden"))
    } else if pid == own {
        Some(text::copy("das Applet kann sich nicht selbst beenden"))
    } else if pid > i32::MAX as u32 {
        Some(text::copy("Prozess existiert nicht mehr"))
    } else {
        None
    }
}

/// Error numbers of the kernel.
pub const EPERM: i32 = 1;

pub const ESRCH: i32 = 3;

pub const EINVAL: i32 = 22;

/// What the error of a signal means; `message` is the system's own text.
pub open spec fn error_text(code: Option<i32>, message: Seq<char>) -> Seq<char> {
    match code {
        Some(n) => if n == EPERM {
            "keine Berechtigung (EPERM) – nur eigene Prozesse"@
        } else if n == ESRCH {
            "Prozess existiert nicht mehr"@
        } else if n == EINVAL {
            "ungültiges Signal"@
        } else {
            message + " (errno "@ + text::signed_decimal(n as int) + ")"@
        },
        None => message,
    }
}

pub fn os_error_text(code: Option<i32>, message: &str) -> (r: String)
    ensures
        r@ == error_text(code, message@),
{
    match code {
        Some(n) => {
            if n == EPERM {
                text::copy("keine Berechtigung (EPERM) – nur eigene Prozesse")
            } else if n == ESRCH {
                text::copy("Prozess existiert nicht mehr")
            } else if n == EINVAL {
                text::copy("ungültiges Signal")
            } else {
                let number = text::from_i64(n as i64);
                text::cat4(message, " (errno ", number.as_str(), ")")
            }
        },
        None => text::copy(message),
    }
}

/// What the system answered to a signal.
#[derive(Debug)]
pub enum Delivery {
    Sent,
    Failed { code: Option<i32>, message: String },
}

/// What the page says about a signal that was handed to the system.
pub open spec fn delivered(pid: u32, signal: i32, delivery: Delivery) -> Result<
    Seq<char>,
    Seq<char>,
> {
    match delivery {
        Delivery::Sent => Ok(sent_text(signal as int, signal_word(signal as int), pid as nat)),
        Delivery::Failed { code, message } => Err(error_text(code, message@)),
    }
}

/// The message for the page once the system has answered.
pub fn delivery_text(pid: u32, signal: i32, delivery: &Delivery) -> (r: Result<String, String>)
    ensures
        link::result_of(r) == delivered(pid, signal, *delivery),
{
    match delivery {
        Delivery::Sent => Ok(sent_message(signal as i64, signal_name(signal), pid as u64)),
        Delivery::Failed { code, message } => Err(os_error_text(*code, message.as_str())),
    }
}

/// Init and the applet itself are never signalled, no signal other than the two
/// offered ones is ever sent, and every number that is signalled is one that the
/// system can hold: it names the process that was meant.
pub proof fn unsafe_signals_are_refused(pid: u32, signal: i32, own: u32)
    ensures
        refused(pid, signal, own) is None <==> (signal == SIGTERM || signal == SIGKILL) && 1
            < pid <= i32::MAX && pid != own,
{
}

// ---------------------------------------------------------------- local scan

/// What `/proc` says about one process. The status is missing where it could
/// not be read; the command line is empty then.
#[derive(Debug)]
pub struct RawProcess {
    pub stat: String,
    pub status: Option<String>,
    pub cmdline: Vec<u8>,
}

/// One process before its share of the processor is known; the two times are
/// the words of its stat line.
#[derive(Debug)]
pub struct Reading {
    pub entry: ProcessEntry,
    pub utime: String,
    pub stime: String,
}

/// A reading as characters.
pub struct Glance {
    pub entry: Process,
    pub utime: Seq<char>,
    pub stime: Seq<char>,
}

impl View for Reading {
    type V = Glance;

    open spec fn view(&self) -> Glance {
        Glance { entry: self.entry@, utime: self.utime@, stime: self.stime@ }
    }
}

/// The user id in a status text.
pub open spec fn uid_in(status: Option<Seq<char>>) -> Option<u32> {
    match status {
        Some(s) => match procfs::field_of(text::line_list(s), "Uid:"@, u32::MAX as int) {
            Some(uid) => Some(uid as u32),
            None => None,
        },
        None => None,
    }
}

/// The resident memory in a status text.
pub open spec fn memory_in(status: Option<Seq<char>>) -> u64 {
    match status {
        Some(s) => match procfs::field_of(text::line_list(s), "VmRSS:"@, u64::MAX as int) {
            Some(kb) => kb as u64,
            None => 0,
        },
        None => 0,
    }
}

/// The reading of a process; none where its stat line cannot be read.
pub open spec fn glance(raw: RawProcess, users: Seq<(u32, Seq<char>)>) -> Option<Glance> {
    let status = match raw.status {
        Some(s) => Some(s@),
        None => None,
    };
    match procfs::stat_of(raw.stat@) {
        Some(stat) => Some(
            Glance {
                entry: Process {
                    pid: stat.pid as u32,
                    ppid: stat.ppid as u32,
                    name: stat.name,
                    user: procfs::owner(users, uid_in(status)),
                    cpu: 0,
                    mem_kb: memory_in(status),
                    state: stat.state,
                    cmd: procfs::command_of(raw.cmdline@, stat.name),
                },
                utime: stat.utime,
                stime: stat.stime,
            },
        ),
        None => None,
    }
}

/// The counters of the previous scan and the user table.
#[derive(Debug)]
pub struct ProcSampler {
    previous: Vec<(u32, u64)>,
    previous_total: u64,
    users: Vec<(u32, String)>,
    cores: usize,
}

/// A sampler's contents. Counters are double-precision bits.
#[verifier::ext_equal]
pub struct Scan {
    pub previous: Seq<(u32, u64)>,
    pub previous_total: u64,
    pub users: Seq<(u32, Seq<char>)>,
    pub cores: usize,
}

impl View for ProcSampler {
    type V = Scan;

    closed spec fn view(&self) -> Scan {
        Scan {
            previous: self.previous@,
            previous_total: self.previous_total,
            users: procfs::table(self.users@),
            cores: self.cores,
        }
    }
}

/// The counter of a process in a scan; a later entry replaces an earlier one.
pub open spec fn counter_of(counters: Seq<(u32, u64)>, pid: u32) -> Option<u64>
    decreases counters.len(),
{
    if counters.len() == 0 {
        None
    } else if counters.last().0 == pid {
        Some(counters.last().1)
    } else {
        counter_of(counters.drop_last(), pid)
    }
}

impl ProcSampler {
    /// A sampler without a previous scan; `passwd` is the user table.
    pub fn new(passwd: &str, cores: usize) -> (r: Self)
        ensures
            r@ == (Scan {
                previous: Seq::empty(),
                previous_total: 0,
                users: procfs::users_in(text::line_list(passwd@)),
                cores,
            }),
    {
        let r = ProcSampler {
            previous: Vec::new(),
            previous_total: 0,
            users: procfs::user_names(passwd),
            cores,
        };
        assert(r.previous@ =~= Seq::empty());
        r
    }

    pub fn cores(&self) -> (r: usize)
        ensures
            r == self@.cores,
    {
        self.cores
    }

    /// The total of the previous scan.
    pub fn previous_total(&self) -> (r: u64)
        ensures
            r == self@.previous_total,
    {
        self.previous_total
    }

    /// The counter of a process in the previous scan.
    pub fn previous(&self, pid: u32) -> (r: Option<u64>)
        ensures
            r == counter_of(self@.previous, pid),
    {
        let ghost all = self.previous@;
        let mut i: usize = self.previous.len();
        assert(all.take(all.len() as int) =~= all);
        while i > 0
            invariant
                i <= self.previous@.len(),
                all == self.previous@,
                counter_of(all, pid) == counter_of(all.take(i as int), pid),
            decreases i,
        {
            assert(all.take(i as int).last() == all[i - 1]);
            assert(all.take(i as int).drop_last() =~= all.take(i - 1));
            if self.previous[i - 1].0 == pid {
                return Some(self.previous[i - 1].1);
            }
            i -= 1;
        }
        None
    }

    /// Reads one process.
    pub fn read(&self, raw: &RawProcess) -> (r: Option<Reading>)
        ensures
            r matches Some(reading) ==> glance(*raw, self@.users) == Some(reading@),
            r is None ==> glance(*raw, self@.users) is None,
    {
        let stat = match procfs::parse_stat_line(raw.stat.as_str()) {
            Some(stat) => stat,
            None => return None,
        };
        let (uid, mem_kb) = match &raw.status {
            Some(status) => procfs::parse_status(status.as_str()),
            None => (None, 0),
        };
        let user = procfs::owner_of(&self.users, uid);
        let cmd = procfs::command_line(&raw.cmdline, stat.name.as_str());
        Some(
            Reading {
                entry: ProcessEntry {
                    pid: stat.pid,
                    ppid: stat.ppid,
                    name: stat.name,
                    user,
                    cpu: 0,
                    mem_kb,
                    state: stat.state,
                    cmd,
                },
                utime: stat.utime,
                stime: stat.stime,
            },
        )
    }

    /// Keeps the counters of a scan for the next one.
    pub fn keep(&mut self, current: Vec<(u32, u64)>, total: u64)
        ensures
            final(self)@ == (Scan {
                previous: current@,
                previous_total: total,
                ..old(self)@
            }),
    {
        self.previous = current;
        self.previous_total = total;
    }

    /// Ends a scan: keeps its counters and lists its rows, the busiest first.
    pub fn complete(
        &mut self,
        entries: &Vec<ProcessEntry>,
        current: Vec<(u32, u64)>,
        total: u64,
    ) -> (r: ProcessList)
        ensures
            final(self)@ == (Scan {
                previous: current@,
                previous_total: total,
                ..old(self)@
            }),
            r@ == (Listing {
                entries: sorted(rows(entries@), SortKey::Cpu),
                total: entries@.len() as usize,
                cores: old(self)@.cores,
                error: None,
            }),
    {
        let cores: usize = self.cores;
        self.keep(current, total);
        ProcessList {
            entries: sort_rows(entries, SortKey::Cpu),
            total: entries.len(),
            cores,
            error: None,
        }
    }
}

/// Local process list, sampled only while it is wanted.
#[derive(Debug)]
pub struct LocalProcesses {
    list: ProcessList,
    active: bool,
}

/// The local list as characters.
pub struct Local {
    pub list: Listing,
    pub active: bool,
}

impl View for LocalProcesses {
    type V = Local;

    closed spec fn view(&self) -> Local {
        Local { list: self.list@, active: self.active }
    }
}

impl LocalProcesses {
    pub fn start() -> (r: Self)
        ensures
            r@.list == (Listing { entries: Seq::empty(), total: 0, cores: 0, error: None }),
            !r@.active,
    {
        LocalProcesses { list: ProcessList::default(), active: false }
    }

    /// Turns the scan on while the process page is visible and off afterwards.
    pub fn set_active(&mut self, wanted: bool)
        ensures
            final(self)@ == (Local { active: wanted, ..old(self)@ }),
    {
        self.active = wanted;
    }

    /// Whether the next scan is wanted, and how long to wait after it or
    /// without it.
    pub fn turn(&self) -> (r: (bool, u64))
        ensures
            r == (self@.active, if self@.active {
                2000u64
            } else {
                300u64
            }),
    {
        if self.active {
            (true, 2000)
        } else {
            (false, 300)
        }
    }

    /// Takes the result of a scan.
    pub fn accept(&mut self, list: ProcessList)
        ensures
            final(self)@ == (Local { list: list@, ..old(self)@ }),
    {
        self.list = list;
    }

    pub fn snapshot(&self) -> (r: ProcessList)
        ensures
            r@ == self@.list,
    {
        self.list.copy()
    }
}

// ---------------------------------------------------------------- requests

/// Result of one request to a node agent.
#[derive(Debug)]
pub struct TaskSnapshot {
    pub running: bool,
    pub list: Option<ProcessList>,
    pub kill: Option<Result<String, String>>,
}

/// The result as characters.
#[verifier::ext_equal]
pub struct Task {
    pub running: bool,
    pub list: Option<Listing>,
    pub kill: Option<Result<Seq<char>, Seq<char>>>,
}

impl View for TaskSnapshot {
    type V = Task;

    open spec fn view(&self) -> Task {
        Task {
            running: self.running,
            list: match self.list {
                Some(list) => Some(list@),
                None => None,
            },
            kill: link::answer_of(self.kill),
        }
    }
}

/// One request to a node agent.
#[derive(Debug)]
pub struct ProcessTask {
    state: TaskSnapshot,
}

impl View for ProcessTask {
    type V = Task;

    closed spec fn view(&self) -> Task {
        self.state@
    }
}

/// The list that a reply gives, or the list that says what went wrong.
pub open spec fn listing_after(reply: Result<Seq<char>, Seq<char>>) -> Listing {
    match reply {
        Ok(t) => match json::json_text(t) {
            Some(doc) => match listing_in(doc) {
                Ok(list) => list,
                Err(e) => failed_listing(e),
            },
            None => failed_listing("ungültige Antwort: "@ + json::json_complaint(t)),
        },
        Err(e) => failed_listing(e),
    }
}

fn copy_result(value: &Result<String, String>) -> (r: Result<String, String>)
    ensures
        link::result_of(r) == link::result_of(*value),
{
    match value {
        Ok(s) => Ok(text::copy(s.as_str())),
        Err(s) => Err(text::copy(s.as_str())),
    }
}

impl ProcessTask {
    /// A request that has just been sent.
    pub fn pending() -> (r: Self)
        ensures
            r@ == (Task { running: true, list: None, kill: None }),
    {
        ProcessTask { state: TaskSnapshot { running: true, list: None, kill: None } }
    }

    /// The answer to a `processes` request.
    pub fn list_done(&mut self, reply: Result<String, String>)
        ensures
            final(self)@ == (Task {
                running: false,
                list: Some(listing_after(link::result_of(reply))),
                kill: None,
            }),
    {
        let list = match reply {
            Ok(t) => match parse_reply(t.as_str()) {
                Ok(list) => list,
                Err(e) => ProcessList::failed(e.as_str()),
            },
            Err(e) => ProcessList::failed(e.as_str()),
        };
        self.state = TaskSnapshot { running: false, list: Some(list), kill: None };
    }

    /// The answer to a `kill` request.
    pub fn kill_done(&mut self, reply: Result<String, String>)
        ensures
            final(self)@ == (Task {
                running: false,
                list: None,
                kill: Some(
                    match link::result_of(reply) {
                        Ok(t) => match json::json_text(t) {
                            Some(doc) => killed(doc),
                            None => Err("ungültige Antwort: "@ + json::json_complaint(t)),
                        },
                        Err(e) => Err(e),
                    },
                ),
            }),
    {
        let kill = match reply {
            Ok(t) => parse_kill_reply(t.as_str()),
            Err(e) => Err(e),
        };
        self.state = TaskSnapshot { running: false, list: None, kill: Some(kill) };
    }

    pub fn snapshot(&self) -> (r: TaskSnapshot)
        ensures
            r@ == self@,
    {
        TaskSnapshot {
            running: self.state.running,
            list: match &self.state.list {
                Some(list) => Some(list.copy()),
                None => None,
            },
            kill: match &self.state.kill {
                Some(k) => Some(copy_result(k)),
                None => None,
            },
        }
    }
}

/// A search looks at four things: a row stays where the trimmed query, in small
/// letters, occurs in its number, its name, its command or its user, each in
/// small letters and each on its own. A query of whitespace keeps every row, and
/// a row in which it occurs nowhere leaves.
pub proof fn searches_look_at_four_things(list: Seq<Process>, query: Seq<char>, p: Process)
    requires
        list.contains(p),
    ensures
        ({
            let wanted = text::lowercase(text::trimmed(query));
            let kept = answering(list, query).contains(p);
            &&& wanted.len() == 0 ==> kept
            &&& text::occurs(text::decimal(p.pid as nat), wanted) ==> kept
            &&& text::occurs(text::lowercase(p.name), wanted) ==> kept
            &&& text::occurs(text::lowercase(p.cmd), wanted) ==> kept
            &&& text::occurs(text::lowercase(p.user), wanted) ==> kept
            &&& kept ==> wanted.len() == 0 || text::occurs(text::decimal(p.pid as nat), wanted)
                || text::occurs(text::lowercase(p.name), wanted) || text::occurs(
                text::lowercase(p.cmd),
                wanted,
            ) || text::occurs(text::lowercase(p.user), wanted)
        }),
{
    searching_keeps_the_answers(list, query);
}

/// The rows that stay keep their order, and none is shown twice for one.
pub proof fn searches_keep_the_order(list: Seq<Process>, query: Seq<char>)
    ensures
        answering(list, query) == list.filter(|p: Process| answers(p, query)),
    decreases list.len(),
{
    reveal(Seq::filter);
    if list.len() > 0 {
        searches_keep_the_order(list.drop_last(), query);
    }
}

/// By processor and by memory the larger row comes first, by number the smaller,
/// by name the earlier one in small letters; rows that are equal in this come in
/// the order of their numbers.
pub proof fn sorted_rows_follow_the_key(list: Seq<Process>, key: SortKey, i: int, j: int)
    requires
        0 <= i < j < list.len(),
    ensures
        ({
            let a = sorted(list, key)[i];
            let b = sorted(list, key)[j];
            &&& key == SortKey::Cpu ==> ieee::rank(a.cpu) > ieee::rank(b.cpu) || ieee::rank(a.cpu)
                == ieee::rank(b.cpu) && a.pid <= b.pid
            &&& key == SortKey::Memory ==> a.mem_kb > b.mem_kb || a.mem_kb == b.mem_kb && a.pid
                <= b.pid
            &&& key == SortKey::Pid ==> a.pid <= b.pid
            &&& key == SortKey::Name ==> text::before(
                text::lowercase(a.name),
                text::lowercase(b.name),
            ) || text::lowercase(a.name) == text::lowercase(b.name) && a.pid <= b.pid
        }),
{
    sorting_keeps_the_rows(list, key);
    let a = sorted(list, key)[i];
    let b = sorted(list, key)[j];
    assert(!order::less(place(b, key), place(a, key)));
    if key == SortKey::Name {
        text::lemma_before_total(text::lowercase(a.name), text::lowercase(b.name));
    }
}

/// The process API is there from version 2.2 on.
pub proof fn the_process_api_starts_with_two_two(version: Seq<char>, major: int, minor: int)
    requires
        text::pieces(version, '.').len() >= 2,
        text::unsigned_literal(text::pieces(version, '.')[0], 10, 0xffff_ffff) == Some(major),
        text::unsigned_literal(text::pieces(version, '.')[1], 10, 0xffff_ffff) == Some(minor),
    ensures
        knows_processes(version) <==> major >= 3 || major == 2 && minor >= 2,
{
}

/// A row of a reply takes every value from the member of that name.
pub proof fn rows_follow_the_reply(doc: Doc, pid: u64)
    requires
        json::member(doc, "pid"@) == Some(Doc::Number(Number::Natural(pid))),
        pid <= u32::MAX,
    ensures
        entry_in(doc) matches Some(p) && {
            &&& p.pid == pid
            &&& json::member(doc, "ppid"@) matches Some(Doc::Number(Number::Natural(n))) ==> (n
                <= u32::MAX ==> p.ppid == n)
            &&& json::member(doc, "name"@) matches Some(Doc::Text(s)) ==> p.name == s
            &&& json::member(doc, "user"@) matches Some(Doc::Text(s)) ==> p.user == s
            &&& json::member(doc, "state"@) matches Some(Doc::Text(s)) ==> p.state == s
            &&& json::member(doc, "cmd"@) matches Some(Doc::Text(s)) ==> p.cmd == s
            &&& json::member(doc, "mem_kb"@) matches Some(Doc::Number(Number::Natural(n)))
                ==> p.mem_kb == n
            &&& json::member(doc, "cpu"@) matches Some(Doc::Number(n)) ==> p.cpu == ieee::narrow(
                json::double_bits(n),
            )
        },
{
}

/// A reply that is not `ok` gives its error. One that is gives its counts and a
/// row for every item that has a number, in order.
pub proof fn replies_give_lists(doc: Doc)
    requires
        json::member(doc, "action"@) == Some(Doc::Text("processes"@)),
    ensures
        listing_in(doc) is Ok <==> json::member(doc, "ok"@) == Some(Doc::Bool(true)),
        listing_in(doc) matches Err(e) ==> (json::member(doc, "error"@) matches Some(Doc::Text(s))
            ==> e == s),
        listing_in(doc) matches Ok(list) ==> {
            &&& list.error is None
            &&& json::member(doc, "total"@) matches Some(Doc::Number(Number::Natural(n))) ==> (n
                <= u32::MAX ==> list.total == n)
            &&& json::member(doc, "cores"@) matches Some(Doc::Number(Number::Natural(n))) ==> (n
                <= u32::MAX ==> list.cores == n)
            &&& json::member(doc, "processes"@) matches Some(Doc::Array(items)) ==> list.entries
                == entries_in(items)
        },
{
}

/// Items add their rows in order; an item without a number adds none.
pub proof fn items_add_rows(items: Seq<Doc>, item: Doc)
    ensures
        entries_in(Seq::empty()).len() == 0,
        json::natural_of(json::member(item, "pid"@)) is None ==> entries_in(items.push(item))
            == entries_in(items),
        entry_in(item) matches Some(p) ==> entries_in(items.push(item)) == entries_in(items).push(
            p,
        ),
{
    assert(items.push(item).drop_last() =~= items);
}

/// A reply to another action is no process list.
pub proof fn other_replies_are_refused(doc: Doc, action: Seq<char>)
    requires
        json::member(doc, "action"@) == Some(Doc::Text(action)),
        action != "processes"@,
    ensures
        listing_in(doc) is Err,
{
}

/// A signal was sent exactly where the reply is `ok`, and the message names the
/// signal and the process.
pub proof fn kill_replies_name_the_signal(doc: Doc, pid: u64, signal: u64)
    requires
        json::member(doc, "pid"@) == Some(Doc::Number(Number::Natural(pid))),
        json::member(doc, "signal"@) == Some(Doc::Number(Number::Natural(signal))),
        signal == 9 || signal == 15,
    ensures
        killed(doc) is Ok <==> json::member(doc, "ok"@) == Some(Doc::Bool(true)),
        killed(doc) matches Ok(s) ==> s == "Signal "@ + text::signed_decimal(signal as int) + (
        if signal == 9 {
            " (SIGKILL) an PID "@
        } else {
            " (SIGTERM) an PID "@
        }) + text::decimal(pid as nat) + " gesendet"@,
        killed(doc) matches Err(e) ==> (json::member(doc, "error"@) matches Some(Doc::Text(s))
            ==> e == s),
{
    reveal_strlit(" (");
    reveal_strlit(") an PID ");
    reveal_strlit("SIGKILL");
    reveal_strlit("SIGTERM");
    reveal_strlit(" (SIGKILL) an PID ");
    reveal_strlit(" (SIGTERM) an PID ");
    let head = "Signal "@ + text::signed_decimal(signal as int);
    let tail = text::decimal(pid as nat) + " gesendet"@;
    assert(" ("@ + "SIGKILL"@ + ") an PID "@ =~= " (SIGKILL) an PID "@);
    assert(" ("@ + "SIGTERM"@ + ") an PID "@ =~= " (SIGTERM) an PID "@);
    let name = if signal == 9 {
        "SIGKILL"@
    } else {
        "SIGTERM"@
    };
    let middle = " ("@ + name + ") an PID "@;
    assert(head + " ("@ + name + ") an PID "@ + text::decimal(pid as nat) + " gesendet"@ =~= head
        + middle + text::decimal(pid as nat) + " gesendet"@);
}

/// Each refusal names its reason, and the reasons come in a settled order: the
/// signal, the first process, the applet itself.
pub proof fn refusals_name_the_reason(pid: u32, signal: i32, own: u32)
    ensures
        signal != 9 && signal != 15 ==> refused(pid, signal, own) == Some(
            "nur SIGTERM (15) und SIGKILL (9) sind erlaubt"@,
        ),
        (signal == 9 || signal == 15) && pid <= 1 ==> refused(pid, signal, own) == Some(
            "PID 1 kann nicht beendet werden"@,
        ),
        (signal == 9 || signal == 15) && pid > 1 && pid == own ==> refused(pid, signal, own)
            == Some("das Applet kann sich nicht selbst beenden"@),
        (signal == 9 || signal == 15) && pid > 1 && pid != own && pid > 0x7fff_ffff ==> refused(
            pid,
            signal,
            own,
        ) == Some("Prozess existiert nicht mehr"@),
{
}

/// The requests ask for what they are for.
pub proof fn requests_say_what_they_want(pid: u32, signal: i32)
    requires
        signal >= 0,
    ensures
        json::member(list_request_doc(), "action"@) == Some(Doc::Text("processes"@)),
        json::member(list_request_doc(), "limit"@) == Some(Doc::Number(Number::Natural(400))),
        json::member(kill_request_doc(pid, signal), "action"@) == Some(Doc::Text("kill"@)),
        json::member(kill_request_doc(pid, signal), "pid"@) == Some(
            Doc::Number(Number::Natural(pid as u64)),
        ),
        json::member(kill_request_doc(pid, signal), "signal"@) == Some(
            Doc::Number(Number::Natural(signal as u64)),
        ),
{
    reveal_strlit("action");
    reveal_strlit("limit");
    reveal_strlit("pid");
    reveal_strlit("signal");
    assert("action"@[0] == 'a' && "limit"@[0] == 'l' && "pid"@[0] == 'p' && "signal"@[0] == 's');
    let a = list_request_doc()->Object_0;
    let b = kill_request_doc(pid, signal)->Object_0;
    reveal_with_fuel(json::lookup, 4);
    assert(a.drop_first()[0] == a[1]);
    assert(b.drop_first()[0] == b[1]);
    assert(b.drop_first().drop_first()[0] == b[2]);
}

/// What the system says about a signal is told in words.
pub proof fn errors_are_told_in_words(message: Seq<char>, n: i32)
    ensures
        error_text(Some(1), message) == "keine Berechtigung (EPERM) – nur eigene Prozesse"@,
        error_text(Some(3), message) == "Prozess existiert nicht mehr"@,
        error_text(Some(22), message) == "ungültiges Signal"@,
        n != 1 && n != 3 && n != 22 ==> error_text(Some(n), message) == message + " (errno "@
            + text::signed_decimal(n as int) + ")"@,
        error_text(None, message) == message,
{
}

/// A row of the local scan shows the name, the parent and the state of the stat
/// line, the owner and the memory of the status, and the command line.
pub proof fn scans_show_what_proc_says(raw: RawProcess, users: Seq<(u32, Seq<char>)>, status: String)
    requires
        raw.status == Some(status),
        procfs::stat_of(raw.stat@) is Some,
    ensures
        glance(raw, users) matches Some(g) && {
            let stat = procfs::stat_of(raw.stat@)->0;
            let lines = text::line_list(status@);
            &&& g.entry.pid == stat.pid as u32
            &&& g.entry.ppid == stat.ppid as u32
            &&& g.entry.name == stat.name
            &&& g.entry.state == stat.state
            &&& g.utime == stat.utime
            &&& g.stime == stat.stime
            &&& g.entry.cmd == procfs::command_of(raw.cmdline@, stat.name)
            &&& procfs::field_of(lines, "VmRSS:"@, u64::MAX as int) matches Some(kb)
                ==> g.entry.mem_kb == kb as u64
            &&& procfs::field_of(lines, "Uid:"@, u32::MAX as int) matches Some(uid)
                ==> g.entry.user == procfs::owner(users, Some(uid as u32))
        },
{
}

/// The last entry of a process is its counter; others do not matter.
pub proof fn later_counters_replace_earlier_ones(counters: Seq<(u32, u64)>, pid: u32, value: u64, other: u32)
    ensures
        counter_of(counters.push((pid, value)), pid) == Some(value),
        other != pid ==> counter_of(counters.push((pid, value)), other) == counter_of(
            counters,
            other,
        ),
        counter_of(Seq::empty(), pid) is None,
{
    assert(counters.push((pid, value)).drop_last() =~= counters);
}

/// Each state letter has its word.
pub proof fn states_have_words(state: Seq<char>)
    ensures
        state == "R"@ ==> state_word(state) == "läuft"@,
        state == "S"@ ==> state_word(state) == "schlafend"@,
        state == "D"@ ==> state_word(state) == "ungestört"@,
        state == "I"@ ==> state_word(state) == "untätig"@,
        state == "T"@ ==> state_word(state) == "angehalten"@,
        state == "t"@ ==> state_word(state) == "getraced"@,
        state == "Z"@ ==> state_word(state) == "Zombie"@,
        state == "X"@ || state == "x"@ ==> state_word(state) == "beendet"@,
        state.len() != 1 ==> state_word(state) == "unbekannt"@,
{
    reveal_strlit("R");
    reveal_strlit("S");
    reveal_strlit("D");
    reveal_strlit("I");
    reveal_strlit("T");
    reveal_strlit("t");
    reveal_strlit("Z");
    reveal_strlit("X");
    reveal_strlit("x");
    assert("R"@[0] == 'R' && "S"@[0] == 'S' && "D"@[0] == 'D' && "I"@[0] == 'I' && "T"@[0] == 'T'
        && "t"@[0] == 't' && "Z"@[0] == 'Z' && "X"@[0] == 'X' && "x"@[0] == 'x');
}

/// What the system answered to a signal is told: the signal that was sent, or the
/// error.
pub proof fn deliveries_are_told(pid: u32, code: Option<i32>, message: String)
    ensures
        delivered(pid, 15, Delivery::Sent) == Ok::<Seq<char>, Seq<char>>(
            "Signal "@ + text::signed_decimal(15) + " ("@ + "SIGTERM"@ + ") an PID "@
                + text::decimal(pid as nat) + " gesendet"@,
        ),
        delivered(pid, 9, Delivery::Sent) == Ok::<Seq<char>, Seq<char>>(
            "Signal "@ + text::signed_decimal(9) + " ("@ + "SIGKILL"@ + ") an PID "@
                + text::decimal(pid as nat) + " gesendet"@,
        ),
        delivered(pid, 15, Delivery::Failed { code, message }) == Err::<Seq<char>, Seq<char>>(
            error_text(code, message@),
        ),
{
}

/// A finished request gives the list of the reply, or a list that says what went
/// wrong.
pub proof fn replies_become_lists(t: Seq<char>, error: Seq<char>)
    ensures
        json::json_text(t) matches Some(doc) ==> (match listing_in(doc) {
            Ok(list) => listing_after(Ok(t)) == list,
            Err(e) => listing_after(Ok(t)).error == Some(e) && listing_after(Ok(t)).entries.len()
                == 0,
        }),
        json::json_text(t) is None ==> listing_after(Ok(t)).error == Some(
            "ungültige Antwort: "@ + json::json_complaint(t),
        ),
        listing_after(Err(error)).error == Some(error),
        listing_after(Err(error)).entries.len() == 0,
{
}

/// A process without a readable status has no owner and no memory.
pub proof fn unreadable_processes_have_no_owner(raw: RawProcess, users: Seq<(u32, Seq<char>)>)
    requires
        raw.status is None,
    ensures
        glance(raw, users) matches Some(g) ==> g.entry.user == "-"@ && g.entry.mem_kb == 0
            && g.entry.cpu == 0,
        glance(raw, users) is Some <==> procfs::stat_of(raw.stat@) is Some,
{
}

} // verus!
