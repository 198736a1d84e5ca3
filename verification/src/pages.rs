//! What the pages of the popup show: processes, models, the installer and the
//! settings.
use crate::applet;
use crate::applet::{Screen, Sysmon};
use crate::install;
use crate::install::{AgentVersionState, InstallStatus};
use crate::pieces;
use crate::pieces::{Part, Piece, Tone, Quantity};
use crate::procs;
use crate::procs::{Listing, Process, ProcessEntry, ProcessList};
use crate::spark;
use crate::spark::{Agent, AgentState, Engine, EngineInfo};
use crate::summary;
use crate::text;
use vstd::prelude::*;

verus! {

// ---------------------------------------------------------------- processes: hosts

/// One host button of the process page.
#[derive(Debug)]
pub struct HostButton {
    pub label: String,
    pub active: bool,
}

/// The name on the button of a target; a node that reports this machine's name
/// is this machine.
pub open spec fn target_button(s: Screen, target: Seq<char>) -> Seq<char> {
    match applet::agent_of(s.spark_state.agents, target) {
        Some(agent) => if agent.host == s.hostname {
            spark::display_name_of(agent) + " (lokal)"@
        } else {
            spark::display_name_of(agent)
        },
        None => text::pieces(target, ':')[0],
    }
}

/// The name on a host button: this machine comes first, then the targets.
pub open spec fn button_label(s: Screen, i: int) -> Seq<char> {
    text::shortened(
        if i == 0 {
            s.hostname + " (lokal)"@
        } else {
            target_button(s, s.config.targets[i - 1])
        },
        18,
    )
}

pub open spec fn buttons_shown(buttons: Seq<HostButton>, s: Screen) -> bool {
    &&& buttons.len() == s.config.targets.len() + 1
    &&& forall|i: int|
        0 <= i < buttons.len() ==> (#[trigger] buttons[i]).label@ == button_label(s, i)
            && buttons[i].active == (i == s.proc_host)
}

fn first_piece(target: &str) -> (r: String)
    ensures
        r@ == text::pieces(target@, ':')[0],
{
    let parts = text::split_char(target, ':');
    assert(text::pieces(target@, ':')[0] == parts@[0]@);
    text::copy(parts[0].as_str())
}

impl Sysmon {
    fn target_label(&self, target: &str) -> (r: String)
        ensures
            r@ == target_button(self@, target@),
    {
        match applet::find_agent(&self.spark_state.agents, target) {
            Some(agent) => {
                let name = agent.display_name();
                if text::same(agent.host.as_str(), self.hostname.as_str()) {
                    text::cat2(name.as_str(), " (lokal)")
                } else {
                    name
                }
            },
            None => first_piece(target),
        }
    }

    fn host_buttons(&self) -> (r: Vec<HostButton>)
        ensures
            buttons_shown(r@, self@),
    {
        let mut out: Vec<HostButton> = Vec::new();
        let own = text::cat2(self.hostname.as_str(), " (lokal)");
        out.push(
            HostButton { label: text::shorten(own.as_str(), 18), active: self.proc_host == 0 },
        );
        let n: usize = self.config.targets.len();
        assert(self@.config.targets.len() == n);
        let mut i: usize = 0;
        while i < n
            invariant
                i <= n == self.config.targets@.len(),
                out@.len() == i + 1,
                self@.config.targets.len() == n,
                forall|k: int|
                    0 <= k < out@.len() ==> (#[trigger] out@[k]).label@ == button_label(self@, k)
                        && out@[k].active == (k == self.proc_host),
            decreases n - i,
        {
            let label = self.target_label(self.config.targets[i].as_str());
            assert(self@.config.targets[i as int] == self.config.targets@[i as int]@);
            out.push(
                HostButton {
                    label: text::shorten(label.as_str(), 18),
                    active: self.proc_host > 0 && self.proc_host - 1 == i,
                },
            );
            i += 1;
        }
        out
    }
}

// ---------------------------------------------------------------- processes: confirmation

/// The question before a signal is sent.
#[derive(Debug)]
pub struct Confirmation {
    pub question: String,
    pub subject: String,
    pub cmd: String,
    pub warning: String,
}

/// The warning for a signal.
pub open spec fn signal_warning(signal: i32) -> Seq<char> {
    if signal == procs::SIGKILL {
        "SIGKILL beendet den Prozess sofort im Kernel: er kann nicht mehr speichern oder aufräumen."@
    } else {
        "SIGTERM fordert den Prozess zum Beenden auf; er kann noch speichern und aufräumen."@
    }
}

/// Whether the question asks about the signal that waits for confirmation.
pub open spec fn asks(c: Confirmation, s: Screen, list: Listing, pid: u32, signal: i32) -> bool {
    let row = applet::row_of(list.entries, pid);
    &&& c.question@ == "Signal "@ + text::signed_decimal(signal as int) + " ("@
        + procs::signal_word(signal as int) + ") an PID "@ + text::decimal(pid as nat)
        + " senden?"@
    &&& c.subject@ == (match row {
        Some(p) => p.name,
        None => "unbekannt"@,
    }) + " · "@ + applet::host_label(s)
    &&& c.cmd@ == text::shortened(
        match row {
            Some(p) => p.cmd,
            None => Seq::empty(),
        },
        90,
    )
    &&& c.warning@ == signal_warning(signal)
}

impl Sysmon {
    fn confirmation(&self, list: &ProcessList, pid: u32, signal: i32) -> (r: Confirmation)
        ensures
            asks(r, self@, list@, pid, signal),
    {
        let row = applet::find_row(&list.entries, pid);
        let nothing = String::new();
        assert(nothing@ =~= Seq::empty());
        let (name, cmd) = match row {
            Some(entry) => (entry.name, entry.cmd),
            None => (text::copy("unbekannt"), nothing),
        };
        let number = text::from_i64(signal as i64);
        let head = text::cat5(
            "Signal ",
            number.as_str(),
            " (",
            procs::signal_name(signal),
            ") an PID ",
        );
        let id = text::from_u64(pid as u64);
        let host = self.selected_host_label();
        let warning = if signal == procs::SIGKILL {
            "SIGKILL beendet den Prozess sofort im Kernel: er kann nicht mehr speichern oder aufräumen."
        } else {
            "SIGTERM fordert den Prozess zum Beenden auf; er kann noch speichern und aufräumen."
        };
        Confirmation {
            question: text::cat3(head.as_str(), id.as_str(), " senden?"),
            subject: text::cat3(name.as_str(), " · ", host.as_str()),
            cmd: text::shorten(cmd.as_str(), 90),
            warning: text::copy(warning),
        }
    }
}

// ---------------------------------------------------------------- processes: rows

/// The details of one process.
#[derive(Debug)]
pub struct ProcessDetails {
    pub cmd: String,
    pub line: Vec<Piece>,
}

/// One line of the process table.
#[derive(Debug)]
pub struct ProcessRow {
    pub pid: u32,
    pub name: String,
    /// Share of one core in percent, as single-precision bits.
    pub cpu: u32,
    pub mem_kb: u64,
    /// Whether a signal to it waits for confirmation.
    pub selected: bool,
    pub details: Option<ProcessDetails>,
}

/// The line below an unfolded process.
pub open spec fn details_line(p: Process) -> Seq<Part> {
    seq![
        Part::Words(
            "Benutzer "@ + p.user + " · Status "@ + p.state + " ("@ + procs::state_word(p.state)
                + ") · PPID "@ + text::decimal(p.ppid as nat) + " · RAM "@,
        ),
        pieces::round(Quantity::Mib(p.mem_kb)),
        Part::Words(" MiB"@),
    ]
}

/// Whether a line of the table shows a process.
pub open spec fn row_shown(row: ProcessRow, p: Process, s: Screen) -> bool {
    &&& row.pid == p.pid
    &&& row.name@ == text::shortened(p.name, 15)
    &&& row.cpu == p.cpu
    &&& row.mem_kb == p.mem_kb
    &&& row.selected == (match s.proc_confirm {
        Some((pid, _)) => pid == p.pid,
        None => false,
    })
    &&& match row.details {
        Some(d) => s.proc_expanded == Some(p.pid) && d.cmd@ == p.cmd && pieces::line(d.line@)
            == details_line(p),
        None => s.proc_expanded != Some(p.pid),
    }
}

fn details_of(entry: &ProcessEntry) -> (r: ProcessDetails)
    ensures
        r.cmd@ == entry@.cmd,
        pieces::line(r.line@) == details_line(entry@),
{
    let head = text::cat5(
        "Benutzer ",
        entry.user.as_str(),
        " · Status ",
        entry.state.as_str(),
        " (",
    );
    let ppid = text::from_u64(entry.ppid as u64);
    let head = text::cat5(
        head.as_str(),
        entry.state_label(),
        ") · PPID ",
        ppid.as_str(),
        " · RAM ",
    );
    let line = pieces::words(pieces::no_pieces(), head.as_str());
    let line = pieces::number(line, Quantity::Mib(entry.mem_kb), 0, 0);
    let line = pieces::words(line, " MiB");
    assert(pieces::line(line@) =~= details_line(entry@));
    ProcessDetails { cmd: text::copy(entry.cmd.as_str()), line }
}

impl Sysmon {
    fn process_row(&self, entry: &ProcessEntry) -> (r: ProcessRow)
        ensures
            row_shown(r, entry@, self@),
    {
        let open = match self.proc_expanded {
            Some(pid) => pid == entry.pid,
            None => false,
        };
        let selected = match self.proc_confirm {
            Some((pid, _)) => pid == entry.pid,
            None => false,
        };
        ProcessRow {
            pid: entry.pid,
            name: text::shorten(entry.name.as_str(), 15),
            cpu: entry.cpu,
            mem_kb: entry.mem_kb,
            selected,
            details: if open {
                Some(details_of(entry))
            } else {
                None
            },
        }
    }
}

// ---------------------------------------------------------------- processes: the page

/// The hint that an agent is too old, and the target to update.
#[derive(Debug)]
pub struct AgentHint {
    pub text: String,
    pub target: String,
}

/// The process page.
#[derive(Debug)]
pub struct ProcessesPage {
    /// Shown, found and cores.
    pub counts: String,
    pub hosts: Vec<HostButton>,
    pub confirmation: Option<Confirmation>,
    pub hint: Option<AgentHint>,
    pub rows: Vec<ProcessRow>,
    /// Said in place of rows.
    pub empty: Option<String>,
    pub status: Vec<(String, Tone)>,
}

/// The rows that the page shows.
pub open spec fn shown_rows(s: Screen, list: Listing) -> Seq<Process> {
    procs::sorted(procs::answering(list.entries, s.proc_query), s.proc_sort)
}

/// Texts with their tones, as characters.
pub open spec fn toned(list: Seq<(String, Tone)>) -> Seq<(Seq<char>, Tone)> {
    list.map_values(|p: (String, Tone)| (p.0@, p.1))
}

/// The lines below the table: a request that runs, what is wrong with the list,
/// and what came of the last signal or request.
pub open spec fn status_lines(s: Screen, list: Listing, running: bool) -> Seq<(Seq<char>, Tone)> {
    let first = if running && s.asking {
        seq![("Frage "@ + applet::host_label(s) + " ab …"@, Tone::Warn)]
    } else {
        Seq::empty()
    };
    let second = match list.error {
        Some(error) => first.push((error, Tone::Bad)),
        None => first,
    };
    match s.proc_note {
        Some(Ok(note)) => second.push((note, Tone::Good)),
        Some(Err(note)) => second.push((note, Tone::Bad)),
        None => second,
    }
}

/// What is said of an agent that is too old.
pub open spec fn hint_text(s: Screen, target: Seq<char>) -> Seq<char> {
    "Der Agent auf "@ + target + " meldet Version "@ + (match applet::agent_of(
        s.spark_state.agents,
        target,
    ) {
        Some(agent) => agent.version,
        None => Seq::empty(),
    })
        + " und kennt die Prozessliste nicht. Ein Update über die Einstellungen schaltet sie frei."@
}

/// Whether a page shows the processes of the selected host, given those of this
/// machine and whether the request to a node is still running.
pub open spec fn processes_shown(
    page: ProcessesPage,
    s: Screen,
    local: Listing,
    running: bool,
) -> bool {
    let list = applet::current_listing(s, local);
    let rows = shown_rows(s, list);
    &&& page.counts@ == text::decimal(rows.len()) + " von "@ + text::decimal(list.total as nat)
        + " · "@ + text::decimal(list.cores as nat) + " Kerne"@
    &&& buttons_shown(page.hosts@, s)
    &&& match page.confirmation {
        Some(c) => s.proc_confirm matches Some((pid, signal)) && asks(c, s, list, pid, signal),
        None => s.proc_confirm is None,
    }
    &&& match page.hint {
        Some(hint) => !applet::agent_ready(s) && applet::chosen(s) == Some(hint.target@)
            && hint.text@ == hint_text(s, hint.target@),
        None => applet::agent_ready(s),
    }
    &&& page.rows@.len() == rows.len()
    &&& forall|i: int|
        0 <= i < rows.len() ==> row_shown(#[trigger] page.rows@[i], rows[i], s)
    &&& match page.empty {
        Some(note) => rows.len() == 0 && note@ == (if list.entries.len() == 0 {
            "Keine Prozesse gemeldet."@
        } else {
            "Keine Treffer für die Suche."@
        }),
        None => rows.len() > 0,
    }
    &&& toned(page.status@) == status_lines(s, list, running)
}

impl Sysmon {
    fn status(&self, list: &ProcessList, running: bool) -> (r: Vec<(String, Tone)>)
        ensures
            toned(r@) == status_lines(self@, list@, running),
    {
        let mut out: Vec<(String, Tone)> = Vec::new();
        if running && self.asking {
            let host = self.selected_host_label();
            out.push((text::cat3("Frage ", host.as_str(), " ab …"), Tone::Warn));
        }
        let ghost first = toned(out@);
        assert(first =~= (if running && self.asking {
            seq![("Frage "@ + applet::host_label(self@) + " ab …"@, Tone::Warn)]
        } else {
            Seq::empty()
        }));
        if let Some(error) = &list.error {
            out.push((text::copy(error.as_str()), Tone::Bad));
            assert(toned(out@) =~= first.push((error@, Tone::Bad)));
        }
        let ghost second = toned(out@);
        match &self.proc_note {
            Some(Ok(note)) => {
                out.push((text::copy(note.as_str()), Tone::Good));
                assert(toned(out@) =~= second.push((note@, Tone::Good)));
            },
            Some(Err(note)) => {
                out.push((text::copy(note.as_str()), Tone::Bad));
                assert(toned(out@) =~= second.push((note@, Tone::Bad)));
            },
            None => {},
        }
        out
    }

    fn agent_hint(&self) -> (r: Option<AgentHint>)
        ensures
            match r {
                Some(hint) => !applet::agent_ready(self@) && applet::chosen(self@) == Some(
                    hint.target@,
                ) && hint.text@ == hint_text(self@, hint.target@),
                None => applet::agent_ready(self@),
            },
    {
        if self.selected_agent_ready() {
            return None;
        }
        match self.selected_target() {
            Some(target) => {
                let version = match applet::find_agent(
                    &self.spark_state.agents,
                    target.as_str(),
                ) {
                    Some(agent) => text::copy(agent.version.as_str()),
                    None => {
                        let r = String::new();
                        assert(r@ =~= Seq::empty());
                        r
                    },
                };
                let text = text::cat5(
                    "Der Agent auf ",
                    target.as_str(),
                    " meldet Version ",
                    version.as_str(),
                    " und kennt die Prozessliste nicht. Ein Update über die Einstellungen schaltet sie frei.",
                );
                Some(AgentHint { text, target: text::copy(target.as_str()) })
            },
            None => None,
        }
    }

    fn process_rows(&self, rows: &Vec<ProcessEntry>) -> (r: Vec<ProcessRow>)
        ensures
            r@.len() == rows@.len(),
            forall|i: int|
                0 <= i < rows@.len() ==> row_shown(
                    #[trigger] r@[i],
                    procs::rows(rows@)[i],
                    self@,
                ),
    {
        let mut out: Vec<ProcessRow> = Vec::new();
        let mut i: usize = 0;
        while i < rows.len()
            invariant
                i <= rows@.len(),
                out@.len() == i,
                forall|k: int|
                    0 <= k < i ==> row_shown(#[trigger] out@[k], procs::rows(rows@)[k], self@),
            decreases rows@.len() - i,
        {
            assert(procs::rows(rows@)[i as int] == rows@[i as int]@);
            out.push(self.process_row(&rows[i]));
            i += 1;
        }
        out
    }

    /// Process page: host selection, search, sorting and the signal actions.
    /// `local` is the list of this machine; `running` says whether a request to
    /// a node is still running.
    pub fn processes_view(&self, local: &ProcessList, running: bool) -> (r: ProcessesPage)
        ensures
            processes_shown(r, self@, local@, running),
    {
        let list = self.current_process_list(local);
        let rows = procs::filter_and_sort(
            &list.entries,
            self.proc_query.as_str(),
            self.proc_sort,
        );
        let ghost all = shown_rows(self@, list@);
        assert(all.len() == rows@.len());
        assert(list@.entries.len() == list.entries@.len());
        let found = text::from_u64(rows.len() as u64);
        let total = text::from_u64(list.total as u64);
        let cores = text::from_u64(list.cores as u64);
        let head = text::cat5(found.as_str(), " von ", total.as_str(), " · ", cores.as_str());
        let confirmation = match self.proc_confirm {
            Some((pid, signal)) => Some(self.confirmation(&list, pid, signal)),
            None => None,
        };
        let empty = if rows.len() > 0 {
            None
        } else if list.entries.len() == 0 {
            Some(text::copy("Keine Prozesse gemeldet."))
        } else {
            Some(text::copy("Keine Treffer für die Suche."))
        };
        ProcessesPage {
            counts: text::cat2(head.as_str(), " Kerne"),
            hosts: self.host_buttons(),
            confirmation,
            hint: self.agent_hint(),
            rows: self.process_rows(&rows),
            empty,
            status: self.status(&list, running),
        }
    }
}

// ---------------------------------------------------------------- models

/// One line of the model list.
#[derive(Debug)]
pub struct ModelRow {
    pub name: String,
    pub loaded: bool,
    /// Whether it can be loaded from here.
    pub loadable: bool,
}

/// The models of one engine.
#[derive(Debug)]
pub struct ModelsPage {
    pub title: String,
    pub count: String,
    pub notes: Vec<String>,
    /// Nothing where the engine is not known.
    pub models: Option<Vec<ModelRow>>,
    pub status: Option<(String, Tone)>,
}

/// The first engine on a port.
pub open spec fn engine_on(engines: Seq<Engine>, port: u16) -> Option<Engine>
    decreases engines.len(),
{
    if engines.len() == 0 {
        None
    } else if engines[0].port == port {
        Some(engines[0])
    } else {
        engine_on(engines.drop_first(), port)
    }
}

/// The engine whose models are shown.
pub open spec fn opened(s: Screen, target: Seq<char>, port: u16) -> Option<Engine> {
    match applet::agent_of(s.spark_state.agents, target) {
        Some(agent) => engine_on(agent.engines, port),
        None => None,
    }
}

/// What is said above the list.
pub open spec fn model_notes(engine: Option<Engine>) -> Seq<Seq<char>> {
    match engine {
        None => seq!["Dieser Endpunkt meldet gerade keine Modelle."@],
        Some(e) => {
            let first = if e.kind != "ollama"@ {
                seq![
                    "Laden ist nur für Ollama-Endpunkte möglich; die Liste zeigt die angebotenen Modelle."@,
                ]
            } else {
                Seq::empty()
            };
            if e.loaded.len() > 0 {
                first.push("Geladen: "@ + text::joined(e.loaded, ", "@))
            } else {
                first
            }
        },
    }
}

/// The progress of a model load, where there is any.
pub open spec fn load_line(s: Screen) -> Option<(Seq<char>, Tone)> {
    if s.load_state.running {
        Some(("Lade …"@, Tone::Warn))
    } else if s.load_state.message.len() > 0 {
        Some(
            (
                s.load_state.message,
                if s.load_state.failed {
                    Tone::Bad
                } else {
                    Tone::Good
                },
            ),
        )
    } else {
        None
    }
}

/// An optional text with its tone, as characters.
pub open spec fn toned_in(value: Option<(String, Tone)>) -> Option<(Seq<char>, Tone)> {
    match value {
        Some((s, tone)) => Some((s@, tone)),
        None => None,
    }
}

/// Whether the lines list the models of an engine.
pub open spec fn models_listed(rows: Seq<ModelRow>, e: Engine) -> bool {
    &&& rows.len() == e.models.len()
    &&& forall|i: int|
        0 <= i < rows.len() ==> (#[trigger] rows[i]).name@ == e.models[i] && rows[i].loaded
            == e.loaded.contains(e.models[i]) && rows[i].loadable == (e.kind == "ollama"@)
}

/// Whether a page shows the models of an engine.
pub open spec fn models_shown(page: ModelsPage, s: Screen, target: Seq<char>, port: u16) -> bool {
    let engine = opened(s, target, port);
    &&& page.title@ == "Modelle · "@ + (match applet::agent_of(s.spark_state.agents, target) {
        Some(agent) => spark::display_name_of(agent),
        None => target,
    }) + ":"@ + text::decimal(port as nat)
    &&& page.count@ == text::decimal(
        match engine {
            Some(e) => e.model_count as nat,
            None => 0,
        },
    )
    &&& text::views(page.notes@) == model_notes(engine)
    &&& match page.models {
        Some(rows) => engine is Some && models_listed(rows@, engine->0),
        None => engine is None,
    }
    &&& toned_in(page.status) == load_line(s)
}

fn find_engine(engines: &Vec<EngineInfo>, port: u16) -> (r: Option<&EngineInfo>)
    ensures
        match r {
            Some(e) => engine_on(spark::engine_views(engines@), port) == Some(e@),
            None => engine_on(spark::engine_views(engines@), port) is None,
        },
{
    let ghost all = spark::engine_views(engines@);
    let mut i: usize = 0;
    assert(all.skip(0) =~= all);
    while i < engines.len()
        invariant
            i <= engines@.len(),
            all == spark::engine_views(engines@),
            engine_on(all, port) == engine_on(all.skip(i as int), port),
        decreases engines@.len() - i,
    {
        assert(all.skip(i as int)[0] == engines@[i as int]@);
        assert(all.skip(i as int).drop_first() =~= all.skip(i + 1));
        if engines[i].port == port {
            return Some(&engines[i]);
        }
        i += 1;
    }
    None
}

fn model_rows(e: &EngineInfo) -> (r: Vec<ModelRow>)
    ensures
        models_listed(r@, e@),
{
    let loadable = text::same(e.kind.as_str(), "ollama");
    let mut out: Vec<ModelRow> = Vec::new();
    let n: usize = e.models.len();
    assert(e@.models.len() == n);
    let mut i: usize = 0;
    while i < n
        invariant
            i <= n == e.models@.len(),
            out@.len() == i,
            e@.models.len() == n,
            loadable == (e@.kind == "ollama"@),
            forall|k: int|
                0 <= k < i ==> (#[trigger] out@[k]).name@ == e@.models[k] && out@[k].loaded
                    == e@.loaded.contains(e@.models[k]) && out@[k].loadable == loadable,
        decreases n - i,
    {
        assert(e@.models[i as int] == e.models@[i as int]@);
        out.push(
            ModelRow {
                name: text::copy(e.models[i].as_str()),
                loaded: text::holds(&e.loaded, e.models[i].as_str()),
                loadable,
            },
        );
        i += 1;
    }
    out
}

fn notes_on(engine: Option<&EngineInfo>) -> (r: Vec<String>)
    ensures
        text::views(r@) == model_notes(
            match engine {
                Some(e) => Some(e@),
                None => None,
            },
        ),
{
    let mut out: Vec<String> = Vec::new();
    match engine {
        None => {
            out.push(text::copy("Dieser Endpunkt meldet gerade keine Modelle."));
            assert(text::views(out@) =~= seq!["Dieser Endpunkt meldet gerade keine Modelle."@]);
        },
        Some(e) => {
            if !text::same(e.kind.as_str(), "ollama") {
                out.push(
                    text::copy(
                        "Laden ist nur für Ollama-Endpunkte möglich; die Liste zeigt die angebotenen Modelle.",
                    ),
                );
            }
            let ghost first = text::views(out@);
            assert(first =~= (if e@.kind != "ollama"@ {
                seq![
                    "Laden ist nur für Ollama-Endpunkte möglich; die Liste zeigt die angebotenen Modelle."@,
                ]
            } else {
                Seq::empty()
            }));
            assert(e@.loaded.len() == e.loaded@.len());
            if e.loaded.len() > 0 {
                let names = text::join(&e.loaded, ", ");
                out.push(text::cat2("Geladen: ", names.as_str()));
                assert(text::views(out@) =~= first.push(
                    "Geladen: "@ + text::joined(e@.loaded, ", "@),
                ));
            }
        },
    }
    out
}

impl Sysmon {
    fn load_status(&self) -> (r: Option<(String, Tone)>)
        ensures
            toned_in(r) == load_line(self@),
    {
        if self.load_state.running {
            Some((text::copy("Lade …"), Tone::Warn))
        } else if !text::is_empty(self.load_state.message.as_str()) {
            let tone = if self.load_state.failed {
                Tone::Bad
            } else {
                Tone::Good
            };
            Some((text::copy(self.load_state.message.as_str()), tone))
        } else {
            None
        }
    }

    /// Dialog with the models of one engine; models can be loaded from here.
    pub fn models_view(&self) -> (r: Option<ModelsPage>)
        ensures
            match r {
                Some(page) => self@.models_open matches Some((target, port)) && models_shown(
                    page,
                    self@,
                    target,
                    port,
                ),
                None => self@.models_open is None,
            },
    {
        match &self.models_open {
            Some((target, port)) => {
                let agent = applet::find_agent(&self.spark_state.agents, target.as_str());
                let name = match agent {
                    Some(agent) => agent.display_name(),
                    None => text::copy(target.as_str()),
                };
                let engine = match agent {
                    Some(agent) => find_engine(&agent.engines, *port),
                    None => None,
                };
                let number = text::from_u64(*port as u64);
                let count: u64 = match engine {
                    Some(e) => e.model_count as u64,
                    None => 0,
                };
                Some(
                    ModelsPage {
                        title: text::cat4("Modelle · ", name.as_str(), ":", number.as_str()),
                        count: text::from_u64(count),
                        notes: notes_on(engine),
                        models: match engine {
                            Some(e) => Some(model_rows(e)),
                            None => None,
                        },
                        status: self.load_status(),
                    },
                )
            },
            None => None,
        }
    }
}

// ---------------------------------------------------------------- installer

/// The installer dialog.
#[derive(Debug)]
pub struct InstallerPage {
    pub title: String,
    pub intro: String,
    pub running: bool,
    /// On the button that starts it.
    pub start: String,
    pub status: (String, Tone),
    pub log: Vec<String>,
    /// Said in place of a log.
    pub empty: bool,
    pub footer: String,
}

/// The word for a status, and how much it matters.
pub open spec fn status_word(status: InstallStatus) -> (Seq<char>, Tone) {
    match status {
        InstallStatus::Idle => ("bereit"@, Tone::Plain),
        InstallStatus::Running => ("läuft"@, Tone::Warn),
        InstallStatus::Done => ("erfolgreich"@, Tone::Good),
        InstallStatus::Failed => ("fehlgeschlagen"@, Tone::Bad),
    }
}

/// Whether a page shows the installer dialog.
pub open spec fn installer_shown(page: InstallerPage, s: Screen) -> bool {
    let lines = s.install_state.lines;
    &&& page.title@ == (if s.install_is_update {
        "Agent aktualisieren"@
    } else {
        "Agent auf Knoten installieren"@
    })
    &&& page.intro@ == (if s.install_is_update {
        "Aktualisierung: Das Applet überträgt die mitgelieferte Agent-Version und startet den Dienst neu."@
    } else {
        "Der Agent, die systemd-Unit und das Installationsskript sind im Applet enthalten und werden per SSH übertragen. Für die Einrichtung wird ein Benutzer mit sudo-Rechten benötigt; ohne Passwort wird der SSH-Schlüssel beziehungsweise ein passwortloses sudo verwendet."@
    })
    &&& page.running == (s.install_state.status is Running)
    &&& page.start@ == (if applet::ended(s.install_state) {
        "Erneut versuchen"@
    } else {
        "Installieren und verbinden"@
    })
    &&& page.status.0@ == status_word(s.install_state.status).0
    &&& page.status.1 == status_word(s.install_state.status).1
    &&& text::views(page.log@) == lines.skip(
        if lines.len() > 200 {
            lines.len() - 200
        } else {
            0
        },
    )
    &&& page.empty == (lines.len() == 0)
    &&& page.footer@ == "Der Knoten wird nach erfolgreicher Installation als "@ + s.install_host
        + ":8787 aufgenommen."@
}

impl Sysmon {
    /// Installer dialog: live log and the actions.
    pub fn installer_view(&self) -> (r: InstallerPage)
        ensures
            installer_shown(r, self@),
    {
        let title = if self.install_is_update {
            "Agent aktualisieren"
        } else {
            "Agent auf Knoten installieren"
        };
        let intro = if self.install_is_update {
            "Aktualisierung: Das Applet überträgt die mitgelieferte Agent-Version und startet den Dienst neu."
        } else {
            "Der Agent, die systemd-Unit und das Installationsskript sind im Applet enthalten und werden per SSH übertragen. Für die Einrichtung wird ein Benutzer mit sudo-Rechten benötigt; ohne Passwort wird der SSH-Schlüssel beziehungsweise ein passwortloses sudo verwendet."
        };
        let start = if self.install_state.is_finished() {
            "Erneut versuchen"
        } else {
            "Installieren und verbinden"
        };
        let (word, tone) = match self.install_state.status {
            InstallStatus::Idle => ("bereit", Tone::Plain),
            InstallStatus::Running => ("läuft", Tone::Warn),
            InstallStatus::Done => ("erfolgreich", Tone::Good),
            InstallStatus::Failed => ("fehlgeschlagen", Tone::Bad),
        };
        assert(self@.install_state.lines.len() == self.install_state.lines@.len());
        InstallerPage {
            title: text::copy(title),
            intro: text::copy(intro),
            running: self.install_state.is_running(),
            start: text::copy(start),
            status: (text::copy(word), tone),
            log: self.install_state.tail(200),
            empty: self.install_state.lines.len() == 0,
            footer: text::cat3(
                "Der Knoten wird nach erfolgreicher Installation als ",
                self.install_host.as_str(),
                ":8787 aufgenommen.",
            ),
        }
    }
}

// ---------------------------------------------------------------- settings

/// One configured node on the settings page.
#[derive(Debug)]
pub struct NodeRow {
    pub target: String,
    pub state: String,
    pub tone: Tone,
    /// Whether an update is offered.
    pub update: bool,
}

/// The settings page.
#[derive(Debug)]
pub struct SettingsPage {
    pub nodes: Vec<NodeRow>,
    /// How many nodes run another version than this applet ships.
    pub mismatch: Option<String>,
    pub hosts: String,
    pub engines: Vec<String>,
    pub note: Option<(String, Tone)>,
}

/// What is said of a node, and how much it matters.
pub open spec fn node_state(agent: Option<Agent>) -> (Seq<char>, Tone) {
    match agent {
        None => ("nicht konfiguriert"@, Tone::Plain),
        Some(a) => if !a.online {
            ("offline"@, Tone::Plain)
        } else if a.version.len() == 0 {
            ("Version unbekannt"@, Tone::Warn)
        } else {
            match install::version_state(a.version, install::AGENT_VERSION@) {
                AgentVersionState::Current => ("Agent "@ + a.version + " · aktuell"@, Tone::Good),
                AgentVersionState::Outdated => (
                    "Agent "@ + a.version + " · Update auf "@ + text::trimmed(
                        install::AGENT_VERSION@,
                    ) + " verfügbar"@,
                    Tone::Warn,
                ),
                AgentVersionState::AppletOutdated => (
                    "Agent "@ + a.version + " · neuer als das Applet"@,
                    Tone::Warn,
                ),
                AgentVersionState::Unknown => ("Version unbekannt"@, Tone::Warn),
            }
        },
    }
}

/// Whether an update is offered for a node.
pub open spec fn update_offered(agent: Option<Agent>) -> bool {
    match agent {
        Some(a) => install::version_state(a.version, install::AGENT_VERSION@) is Outdated,
        None => false,
    }
}

/// Whether a line shows a target.
pub open spec fn node_shown(row: NodeRow, s: Screen, target: Seq<char>) -> bool {
    let agent = applet::agent_of(s.spark_state.agents, target);
    &&& row.target@ == target
    &&& row.state@ == node_state(agent).0
    &&& row.tone == node_state(agent).1
    &&& row.update == update_offered(agent)
}

/// Whether a page shows the settings.
pub open spec fn settings_shown(page: SettingsPage, s: Screen) -> bool {
    let mismatches = summary::mismatches_of(s.spark_state.agents);
    let details = summary::engine_rows(s.spark_state.agents);
    &&& page.nodes@.len() == s.config.targets.len()
    &&& forall|i: int|
        0 <= i < page.nodes@.len() ==> node_shown(
            #[trigger] page.nodes@[i],
            s,
            s.config.targets[i],
        )
    &&& match page.mismatch {
        Some(m) => mismatches.len() > 0 && m@ == text::decimal(mismatches.len())
            + " Knoten laufen mit einer anderen Agent-Version als das Applet (erwartet "@
            + text::trimmed(install::AGENT_VERSION@) + ")."@,
        None => mismatches.len() == 0,
    }
    &&& page.hosts@ == "Port 8787 wird ergänzt, wenn keiner angegeben ist ("@ + text::decimal(
        s.config.targets.len(),
    ) + " Knoten konfiguriert)."@
    &&& text::views(page.engines@) == details.map_values(
        |row: (Agent, Engine)| "↳ "@ + summary::detail_of(row),
    )
    &&& match page.note {
        Some((note, tone)) => s.note == Some(note@) && tone == (if text::occurs(
            note@,
            "fehlgeschlagen"@,
        ) {
            Tone::Bad
        } else {
            Tone::Good
        }),
        None => s.note is None,
    }
}

fn state_of(agent: Option<&AgentState>) -> (r: (String, Tone))
    ensures
        (r.0@, r.1) == node_state(
            match agent {
                Some(a) => Some(a@),
                None => None,
            },
        ),
{
    match agent {
        None => (text::copy("nicht konfiguriert"), Tone::Plain),
        Some(a) => {
            if !a.online {
                return (text::copy("offline"), Tone::Plain);
            }
            if text::is_empty(a.version.as_str()) {
                return (text::copy("Version unbekannt"), Tone::Warn);
            }
            match install::agent_version_state(a.version.as_str()) {
                AgentVersionState::Current => (
                    text::cat3("Agent ", a.version.as_str(), " · aktuell"),
                    Tone::Good,
                ),
                AgentVersionState::Outdated => {
                    let expected = install::expected_agent_version();
                    (
                        text::cat5(
                            "Agent ",
                            a.version.as_str(),
                            " · Update auf ",
                            expected.as_str(),
                            " verfügbar",
                        ),
                        Tone::Warn,
                    )
                },
                AgentVersionState::AppletOutdated => (
                    text::cat3("Agent ", a.version.as_str(), " · neuer als das Applet"),
                    Tone::Warn,
                ),
                AgentVersionState::Unknown => (text::copy("Version unbekannt"), Tone::Warn),
            }
        },
    }
}

fn arrowed(list: &Vec<String>) -> (r: Vec<String>)
    ensures
        text::views(r@) == text::views(list@).map_values(|s: Seq<char>| "↳ "@ + s),
{
    let ghost all = text::views(list@).map_values(|s: Seq<char>| "↳ "@ + s);
    let mut out: Vec<String> = Vec::new();
    let mut i: usize = 0;
    while i < list.len()
        invariant
            i <= list@.len(),
            all == text::views(list@).map_values(|s: Seq<char>| "↳ "@ + s),
            text::views(out@) == all.take(i as int),
        decreases list@.len() - i,
    {
        let ghost before = out@;
        assert(text::views(list@)[i as int] == list@[i as int]@);
        out.push(text::cat2("↳ ", list[i].as_str()));
        assert(text::views(out@) =~= text::views(before).push(all[i as int]));
        assert(text::views(out@) =~= all.take(i + 1));
        i += 1;
    }
    assert(text::views(out@) =~= all);
    out
}

impl Sysmon {
    fn node_rows(&self) -> (r: Vec<NodeRow>)
        ensures
            r@.len() == self@.config.targets.len(),
            forall|i: int|
                0 <= i < r@.len() ==> node_shown(
                    #[trigger] r@[i],
                    self@,
                    self@.config.targets[i],
                ),
    {
        let mut out: Vec<NodeRow> = Vec::new();
        let n: usize = self.config.targets.len();
        assert(self@.config.targets.len() == n);
        let mut i: usize = 0;
        while i < n
            invariant
                i <= n == self.config.targets@.len(),
                out@.len() == i,
                self@.config.targets.len() == n,
                forall|k: int|
                    0 <= k < i ==> node_shown(#[trigger] out@[k], self@, self@.config.targets[k]),
            decreases n - i,
        {
            assert(self@.config.targets[i as int] == self.config.targets@[i as int]@);
            let agent = applet::find_agent(
                &self.spark_state.agents,
                self.config.targets[i].as_str(),
            );
            let (state, tone) = state_of(agent);
            let update = match agent {
                Some(a) => install::agent_version_state(a.version.as_str())
                    == AgentVersionState::Outdated,
                None => false,
            };
            out.push(
                NodeRow {
                    target: text::copy(self.config.targets[i].as_str()),
                    state,
                    tone,
                    update,
                },
            );
            i += 1;
        }
        out
    }

    /// Settings page: node agents, engine discovery and persistence.
    pub fn settings_view(&self) -> (r: SettingsPage)
        ensures
            settings_shown(r, self@),
    {
        let mismatches = self.spark_state.version_mismatches();
        assert(summary::mismatches_of(self@.spark_state.agents).len() == mismatches@.len());
        let mismatch = if mismatches.len() == 0 {
            None
        } else {
            let number = text::from_u64(mismatches.len() as u64);
            let expected = install::expected_agent_version();
            Some(
                text::cat4(
                    number.as_str(),
                    " Knoten laufen mit einer anderen Agent-Version als das Applet (erwartet ",
                    expected.as_str(),
                    ").",
                ),
            )
        };
        assert(self@.config.targets.len() == self.config.targets@.len());
        let count = text::from_u64(self.config.targets.len() as u64);
        let details = self.spark_state.engine_details();
        let engines = arrowed(&details);
        proof {
            let rows = summary::engine_rows(self@.spark_state.agents);
            assert(rows.map_values(|row: (Agent, Engine)| summary::detail_of(row)).map_values(
                |s: Seq<char>| "↳ "@ + s,
            ) =~= rows.map_values(|row: (Agent, Engine)| "↳ "@ + summary::detail_of(row)));
        }
        let note = match &self.note {
            Some(note) => {
                let tone = if text::contains(note.as_str(), "fehlgeschlagen") {
                    Tone::Bad
                } else {
                    Tone::Good
                };
                Some((text::copy(note.as_str()), tone))
            },
            None => None,
        };
        SettingsPage {
            nodes: self.node_rows(),
            mismatch,
            hosts: text::cat3(
                "Port 8787 wird ergänzt, wenn keiner angegeben ist (",
                count.as_str(),
                " Knoten konfiguriert).",
            ),
            engines,
            note,
        }
    }
}

/// The process page shows the rows of the selected host that answer the search,
/// in the chosen order, each with its own number, share, memory and name, and
/// counts them.
pub proof fn process_pages_show_the_rows(page: ProcessesPage, s: Screen, local: Listing, running: bool, i: int)
    requires
        processes_shown(page, s, local, running),
        0 <= i < page.rows@.len(),
    ensures
        ({
            let list = applet::current_listing(s, local);
            let rows = procs::sorted(procs::answering(list.entries, s.proc_query), s.proc_sort);
            let row = page.rows@[i];
            &&& page.rows@.len() == rows.len()
            &&& row.pid == rows[i].pid
            &&& row.cpu == rows[i].cpu
            &&& row.mem_kb == rows[i].mem_kb
            &&& rows[i].name.len() <= 15 ==> row.name@ == rows[i].name
            &&& page.counts@ == text::decimal(rows.len()) + " von "@ + text::decimal(
                list.total as nat,
            ) + " · "@ + text::decimal(list.cores as nat) + " Kerne"@
            &&& row.selected <==> (s.proc_confirm matches Some((pid, _)) && pid == rows[i].pid)
            &&& row.details is Some <==> s.proc_expanded == Some(rows[i].pid)
            &&& row.details matches Some(d) ==> d.cmd@ == rows[i].cmd
        }),
{
    let rows = shown_rows(s, applet::current_listing(s, local));
    assert(row_shown(page.rows@[i], rows[i], s));
}

/// An unfolded row tells the user, the state, the parent and the memory.
pub proof fn details_tell_the_owner(p: Process)
    ensures
        details_line(p) == seq![
            Part::Words(
                "Benutzer "@ + p.user + " · Status "@ + p.state + " ("@ + procs::state_word(p.state)
                    + ") · PPID "@ + text::decimal(p.ppid as nat) + " · RAM "@,
            ),
            Part::Number { value: Quantity::Mib(p.mem_kb), decimals: 0, width: 0 },
            Part::Words(" MiB"@),
        ],
{
}

/// A page without rows says whether there are none or none that match.
pub proof fn empty_pages_say_why(page: ProcessesPage, s: Screen, local: Listing, running: bool)
    requires
        processes_shown(page, s, local, running),
    ensures
        page.empty is Some <==> page.rows@.len() == 0,
        page.empty matches Some(note) ==> (note@ == "Keine Prozesse gemeldet."@
            <==> applet::current_listing(s, local).entries.len() == 0),
        page.confirmation is Some <==> s.proc_confirm is Some,
        page.hint is Some <==> !applet::agent_ready(s),
{
    reveal_strlit("Keine Prozesse gemeldet.");
    reveal_strlit("Keine Treffer für die Suche.");
    assert("Keine Prozesse gemeldet."@[6] == 'P');
    assert("Keine Treffer für die Suche."@[6] == 'T');
}

/// The question names the signal, the process and the host, and warns of what
/// the signal does.
pub proof fn questions_name_the_signal(c: Confirmation, s: Screen, list: Listing, pid: u32, signal: i32)
    requires
        asks(c, s, list, pid, signal),
    ensures
        signal == 9 ==> c.question@ == "Signal "@ + text::signed_decimal(9) + " ("@ + "SIGKILL"@
            + ") an PID "@ + text::decimal(pid as nat) + " senden?"@,
        signal == 15 ==> c.question@ == "Signal "@ + text::signed_decimal(15) + " ("@ + "SIGTERM"@
            + ") an PID "@ + text::decimal(pid as nat) + " senden?"@,
        signal == 9 ==> c.warning@
            == "SIGKILL beendet den Prozess sofort im Kernel: er kann nicht mehr speichern oder aufräumen."@,
        signal == 15 ==> c.warning@
            == "SIGTERM fordert den Prozess zum Beenden auf; er kann noch speichern und aufräumen."@,
        applet::row_of(list.entries, pid) matches Some(p) ==> c.subject@ == p.name + " · "@
            + applet::host_label(s),
        applet::row_of(list.entries, pid) is None ==> c.subject@ == "unbekannt"@ + " · "@
            + applet::host_label(s),
{
}

/// There is a button for this machine and one for every node, and the selected
/// one is active.
pub proof fn buttons_name_the_hosts(buttons: Seq<HostButton>, s: Screen, i: int)
    requires
        buttons_shown(buttons, s),
        0 <= i < buttons.len(),
        s.hostname.len() <= 10,
    ensures
        buttons.len() == s.config.targets.len() + 1,
        buttons[i].active <==> i == s.proc_host,
        buttons[0].label@ == s.hostname + " (lokal)"@,
        i > 0 ==> (applet::agent_of(s.spark_state.agents, s.config.targets[i - 1]) matches Some(
            agent,
        ) ==> {
            let name = spark::display_name_of(agent);
            &&& agent.host != s.hostname && name.len() <= 18 ==> buttons[i].label@ == name
            &&& agent.host == s.hostname && name.len() <= 10 ==> buttons[i].label@ == name
                + " (lokal)"@
        }),
{
    reveal_strlit(" (lokal)");
    assert(buttons[0].label@ == button_label(s, 0));
    assert(buttons[i].label@ == button_label(s, i));
}

/// Below the list stand the request that runs, the error of the list and what
/// came of the last signal, in this order.
pub proof fn status_lines_tell_what_happened(s: Screen, list: Listing, running: bool)
    ensures
        ({
            let lines = status_lines(s, list, running);
            &&& running && s.asking ==> lines.len() > 0 && lines[0] == (
                "Frage "@ + applet::host_label(s) + " ab …"@,
                Tone::Warn,
            )
            &&& s.proc_note matches Some(Ok(note)) ==> lines.len() > 0 && lines.last() == (
                note,
                Tone::Good,
            )
            &&& s.proc_note matches Some(Err(note)) ==> lines.len() > 0 && lines.last() == (
                note,
                Tone::Bad,
            )
            &&& list.error matches Some(e) ==> lines.contains((e, Tone::Bad))
            &&& !(running && s.asking) && list.error is None && s.proc_note is None ==> lines.len()
                == 0
        }),
{
    let lines = status_lines(s, list, running);
    if let Some(e) = list.error {
        if running && s.asking {
            assert(lines[1] == (e, Tone::Bad));
        } else {
            assert(lines[0] == (e, Tone::Bad));
        }
    }
}

/// The models are those of the server on the port, each marked where it is in
/// memory, and only Ollama can load one.
pub proof fn model_pages_list_the_models(page: ModelsPage, s: Screen, target: Seq<char>, port: u16, i: int)
    requires
        models_shown(page, s, target, port),
        page.models matches Some(rows) && 0 <= i < rows@.len(),
    ensures
        ({
            let e = opened(s, target, port)->0;
            let row = page.models->0@[i];
            &&& opened(s, target, port) is Some
            &&& page.models->0@.len() == e.models.len()
            &&& row.name@ == e.models[i]
            &&& row.loaded <==> e.loaded.contains(e.models[i])
            &&& row.loadable <==> e.kind == "ollama"@
            &&& page.count@ == text::decimal(e.model_count as nat)
        }),
{
    let rows = page.models->0@;
    assert(rows[i].name@ == opened(s, target, port)->0.models[i]);
}

/// A server is found by its port; the first one counts.
pub proof fn servers_are_found_by_port(engines: Seq<Engine>, k: int, port: u16)
    requires
        0 <= k < engines.len(),
        engines[k].port == port,
        forall|j: int| 0 <= j < k ==> (#[trigger] engines[j]).port != port,
    ensures
        engine_on(engines, port) == Some(engines[k]),
    decreases k,
{
    if k > 0 {
        let rest = engines.drop_first();
        assert(engines[0].port != port);
        assert forall|j: int| 0 <= j < k - 1 implies (#[trigger] rest[j]).port != port by {
            assert(rest[j] == engines[j + 1]);
        }
        servers_are_found_by_port(rest, k - 1, port);
    }
}

/// The page says that only Ollama loads, and what is loaded.
pub proof fn model_notes_tell_what_is_loaded(e: Engine)
    ensures
        model_notes(None) == seq!["Dieser Endpunkt meldet gerade keine Modelle."@],
        e.kind == "ollama"@ && e.loaded.len() == 0 ==> model_notes(Some(e)).len() == 0,
        e.loaded.len() > 0 ==> model_notes(Some(e)).len() > 0 && model_notes(Some(e)).last()
            == "Geladen: "@ + text::joined(e.loaded, ", "@),
        e.kind != "ollama"@ ==> model_notes(Some(e)).len() > 0 && model_notes(Some(e))[0]
            == "Laden ist nur für Ollama-Endpunkte möglich; die Liste zeigt die angebotenen Modelle."@,
{
}

/// A load that runs is told, then how it ended.
pub proof fn loads_are_shown(s: Screen)
    ensures
        s.load_state.running ==> load_line(s) == Some(("Lade …"@, Tone::Warn)),
        !s.load_state.running && s.load_state.message.len() == 0 ==> load_line(s) is None,
        !s.load_state.running && s.load_state.message.len() > 0 ==> load_line(s) == Some(
            (
                s.load_state.message,
                if s.load_state.failed {
                    Tone::Bad
                } else {
                    Tone::Good
                },
            ),
        ),
{
}

/// The installer page shows the status, the last two hundred lines of the log and
/// the name under which the node will join.
pub proof fn installer_pages_show_the_log(page: InstallerPage, s: Screen)
    requires
        installer_shown(page, s),
    ensures
        page.running <==> s.install_state.status is Running,
        s.install_state.status is Idle ==> page.status.0@ == "bereit"@ && page.status.1
            == Tone::Plain,
        s.install_state.status is Running ==> page.status.0@ == "läuft"@ && page.status.1
            == Tone::Warn,
        s.install_state.status is Done ==> page.status.0@ == "erfolgreich"@ && page.status.1
            == Tone::Good,
        s.install_state.status is Failed ==> page.status.0@ == "fehlgeschlagen"@ && page.status.1
            == Tone::Bad,
        s.install_state.lines.len() <= 200 ==> text::views(page.log@) == s.install_state.lines,
        s.install_state.lines.len() > 200 ==> page.log@.len() == 200 && text::views(
            page.log@,
        ).last() == s.install_state.lines.last(),
        page.footer@ == "Der Knoten wird nach erfolgreicher Installation als "@ + s.install_host
            + ":8787 aufgenommen."@,
        page.title@ == "Agent aktualisieren"@ <==> s.install_is_update,
{
    let lines = s.install_state.lines;
    reveal_strlit("Agent aktualisieren");
    reveal_strlit("Agent auf Knoten installieren");
    assert("Agent aktualisieren"@.len() == 19 && "Agent auf Knoten installieren"@.len() == 29);
    if lines.len() <= 200 {
        assert(lines.skip(0) =~= lines);
    } else {
        assert(text::views(page.log@).len() == page.log@.len());
        assert(lines.skip(lines.len() - 200).last() == lines.last());
    }
}

/// A node is shown with what is known of it: nothing, that it is offline, or how
/// its agent compares with the one that is shipped.
pub proof fn nodes_show_their_version(a: Agent)
    ensures
        node_state(None) == ("nicht konfiguriert"@, Tone::Plain),
        !update_offered(None),
        !a.online ==> node_state(Some(a)) == ("offline"@, Tone::Plain),
        a.online && a.version.len() == 0 ==> node_state(Some(a)) == (
            "Version unbekannt"@,
            Tone::Warn,
        ),
        ({
            let state = install::version_state(a.version, "2.2.0\n"@);
            &&& a.online && a.version.len() > 0 && state is Current ==> node_state(Some(a)) == (
                "Agent "@ + a.version + " · aktuell"@,
                Tone::Good,
            )
            &&& a.online && a.version.len() > 0 && state is Outdated ==> node_state(Some(a)) == (
                "Agent "@ + a.version + " · Update auf "@ + text::trimmed("2.2.0\n"@)
                    + " verfügbar"@,
                Tone::Warn,
            )
            &&& a.online && a.version.len() > 0 && state is AppletOutdated ==> node_state(Some(a))
                == ("Agent "@ + a.version + " · neuer als das Applet"@, Tone::Warn)
            &&& update_offered(Some(a)) <==> state is Outdated
        }),
{
}

/// The settings page has a row for every target, in order, and tells how many
/// nodes run another version.
pub proof fn settings_pages_list_the_nodes(page: SettingsPage, s: Screen, i: int)
    requires
        settings_shown(page, s),
        0 <= i < s.config.targets.len(),
    ensures
        page.nodes@.len() == s.config.targets.len(),
        page.nodes@[i].target@ == s.config.targets[i],
        page.nodes@[i].state@ == node_state(
            applet::agent_of(s.spark_state.agents, s.config.targets[i]),
        ).0,
        page.nodes@[i].tone == node_state(
            applet::agent_of(s.spark_state.agents, s.config.targets[i]),
        ).1,
        page.nodes@[i].update == update_offered(
            applet::agent_of(s.spark_state.agents, s.config.targets[i]),
        ),
        page.mismatch is Some <==> summary::mismatches_of(s.spark_state.agents).len() > 0,
        page.note is Some <==> s.note is Some,
        page.note matches Some((note, tone)) ==> s.note == Some(note@) && (tone == Tone::Bad
            <==> text::occurs(note@, "fehlgeschlagen"@)),
        page.engines@.len() == summary::engine_rows(s.spark_state.agents).len(),
{
    assert(node_shown(page.nodes@[i], s, s.config.targets[i]));
    assert(text::views(page.engines@).len() == page.engines@.len());
}

} // verus!
