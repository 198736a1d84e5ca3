//! The applet: what it shows and remembers, and what every message does to it.
//!
//! `Sysmon::update` decides; the effects it returns are carried out outside, in
//! their order, and what comes of them returns as a message.
use crate::config;
use crate::config::{Config, SparkConfig};
use crate::install;
use crate::install::{InstallRequest, InstallState, InstallStatus, Progress, Wish};
use crate::link;
use crate::link::{LoadState, Loading};
use crate::procs;
use crate::procs::{Listing, ProcessEntry, ProcessList, Process, SortKey, Task, TaskSnapshot};
use crate::spark;
use crate::spark::{Agent, AgentState, Snapshot, SparkSnapshot};
use crate::text;
use vstd::prelude::*;

verus! {

// ---------------------------------------------------------------- messages

/// Something that happened.
#[derive(Debug)]
pub enum Message {
    /// One second elapsed: the newest node values, and how far the installation
    /// is, if one is shown.
    Tick { snapshot: SparkSnapshot, install: Option<InstallState> },
    /// The rest of that second: how far the request to a node agent and the
    /// model load are, and whether a closed popup is to be opened again.
    Polled { task: Option<TaskSnapshot>, load: Option<LoadState>, keep_popup: bool },
    /// The panel button was pressed.
    TogglePopup,
    /// The popup was opened.
    PopupOpened(u64),
    /// The popup asked to be closed.
    PopupClosed(u64),
    /// The remote section header was pressed.
    ToggleSpark,
    /// The settings button in the popup header was pressed.
    ToggleSettings,
    /// The host field in the settings view changed.
    HostDraft(String),
    /// Add the typed host to the node list.
    AddHost,
    /// Remove the node at this position.
    RemoveHost(usize),
    /// Switch between discovered engines and explicit data only.
    ToggleDiscovered,
    /// Share one snapshot between several panel instances.
    ToggleSharedCache,
    /// Show or hide the local history charts.
    ToggleLocalCharts,
    /// Choose whether the remote section starts expanded.
    ToggleSectionOpen,
    /// Open the installer dialog for the typed host.
    OpenInstaller,
    /// Installer dialog fields.
    InstallHost(String),
    InstallUser(String),
    InstallPassword(String),
    InstallPort(String),
    /// Run the installation on the entered host.
    StartInstall,
    /// Add the entered host without installing anything.
    AddHostOnly,
    /// Close the installer dialog.
    CloseInstaller,
    /// Abort a running installation.
    CancelInstall,
    /// Offer an agent update for a configured target.
    UpdateAgent(String),
    /// Expand or collapse one remote node.
    ToggleRemote(String),
    /// Open the model list of one engine: its agent and port.
    OpenModels(String, u16),
    /// Load one model into the engine.
    LoadModel(String),
    /// Close the model dialog.
    CloseModels,
    /// Persist the configuration and restart the agent connections.
    SaveSettings,
    /// The configuration was written to this path, or was not.
    SettingsSaved(Result<String, String>),
    /// The configuration with a new node was written to this path, or was not.
    NodeSaved(Result<String, String>),
    /// The agent connections were restarted.
    Restarted(SparkSnapshot),
    /// Open the process page.
    OpenProcesses,
    /// Return from the process page to the values.
    CloseProcesses,
    /// The process search field changed.
    ProcessQuery(String),
    /// Sort the process list by this column.
    ProcessSort(SortKey),
    /// Show the process list of one host (0 = this machine).
    ProcessHost(usize),
    /// Ask for the process list again (node agents only).
    RefreshProcesses,
    /// Expand or collapse the command line of one process.
    ToggleProcess(u32),
    /// Ask for confirmation before sending a signal.
    AskSignal(u32, i32),
    /// Close the confirmation without sending anything.
    CancelSignal,
    /// Send the signal that was confirmed.
    ConfirmSignal,
    /// What came of a signal to a process of this machine.
    SignalSent(Result<String, String>),
}

/// A message as characters.
pub enum Event {
    Tick { snapshot: Snapshot, install: Option<Progress> },
    Polled { task: Option<Task>, load: Option<Loading>, keep_popup: bool },
    TogglePopup,
    PopupOpened(u64),
    PopupClosed(u64),
    ToggleSpark,
    ToggleSettings,
    HostDraft(Seq<char>),
    AddHost,
    RemoveHost(usize),
    ToggleDiscovered,
    ToggleSharedCache,
    ToggleLocalCharts,
    ToggleSectionOpen,
    OpenInstaller,
    InstallHost(Seq<char>),
    InstallUser(Seq<char>),
    InstallPassword(Seq<char>),
    InstallPort(Seq<char>),
    StartInstall,
    AddHostOnly,
    CloseInstaller,
    CancelInstall,
    UpdateAgent(Seq<char>),
    ToggleRemote(Seq<char>),
    OpenModels(Seq<char>, u16),
    LoadModel(Seq<char>),
    CloseModels,
    SaveSettings,
    SettingsSaved(Result<Seq<char>, Seq<char>>),
    NodeSaved(Result<Seq<char>, Seq<char>>),
    Restarted(Snapshot),
    OpenProcesses,
    CloseProcesses,
    ProcessQuery(Seq<char>),
    ProcessSort(SortKey),
    ProcessHost(usize),
    RefreshProcesses,
    ToggleProcess(u32),
    AskSignal(u32, i32),
    CancelSignal,
    ConfirmSignal,
    SignalSent(Result<Seq<char>, Seq<char>>),
}

/// Optional states as characters.
pub open spec fn progress_in(state: Option<InstallState>) -> Option<Progress> {
    match state {
        Some(state) => Some(state@),
        None => None,
    }
}

pub open spec fn task_in(task: Option<TaskSnapshot>) -> Option<Task> {
    match task {
        Some(state) => Some(state@),
        None => None,
    }
}

pub open spec fn loading_in(load: Option<LoadState>) -> Option<Loading> {
    match load {
        Some(state) => Some(state@),
        None => None,
    }
}

pub open spec fn listing_in(list: Option<ProcessList>) -> Option<Listing> {
    match list {
        Some(list) => Some(list@),
        None => None,
    }
}

impl View for Message {
    type V = Event;

    open spec fn view(&self) -> Event {
        match *self {
            Message::Tick { snapshot, install } => Event::Tick {
                snapshot: snapshot@,
                install: progress_in(install),
            },
            Message::Polled { task, load, keep_popup } => Event::Polled {
                task: task_in(task),
                load: loading_in(load),
                keep_popup,
            },
            Message::TogglePopup => Event::TogglePopup,
            Message::PopupOpened(id) => Event::PopupOpened(id),
            Message::PopupClosed(id) => Event::PopupClosed(id),
            Message::ToggleSpark => Event::ToggleSpark,
            Message::ToggleSettings => Event::ToggleSettings,
            Message::HostDraft(value) => Event::HostDraft(value@),
            Message::AddHost => Event::AddHost,
            Message::RemoveHost(index) => Event::RemoveHost(index),
            Message::ToggleDiscovered => Event::ToggleDiscovered,
            Message::ToggleSharedCache => Event::ToggleSharedCache,
            Message::ToggleLocalCharts => Event::ToggleLocalCharts,
            Message::ToggleSectionOpen => Event::ToggleSectionOpen,
            Message::OpenInstaller => Event::OpenInstaller,
            Message::InstallHost(value) => Event::InstallHost(value@),
            Message::InstallUser(value) => Event::InstallUser(value@),
            Message::InstallPassword(value) => Event::InstallPassword(value@),
            Message::InstallPort(value) => Event::InstallPort(value@),
            Message::StartInstall => Event::StartInstall,
            Message::AddHostOnly => Event::AddHostOnly,
            Message::CloseInstaller => Event::CloseInstaller,
            Message::CancelInstall => Event::CancelInstall,
            Message::UpdateAgent(target) => Event::UpdateAgent(target@),
            Message::ToggleRemote(target) => Event::ToggleRemote(target@),
            Message::OpenModels(target, port) => Event::OpenModels(target@, port),
            Message::LoadModel(model) => Event::LoadModel(model@),
            Message::CloseModels => Event::CloseModels,
            Message::SaveSettings => Event::SaveSettings,
            Message::SettingsSaved(result) => Event::SettingsSaved(link::result_of(result)),
            Message::NodeSaved(result) => Event::NodeSaved(link::result_of(result)),
            Message::Restarted(snapshot) => Event::Restarted(snapshot@),
            Message::OpenProcesses => Event::OpenProcesses,
            Message::CloseProcesses => Event::CloseProcesses,
            Message::ProcessQuery(value) => Event::ProcessQuery(value@),
            Message::ProcessSort(key) => Event::ProcessSort(key),
            Message::ProcessHost(index) => Event::ProcessHost(index),
            Message::RefreshProcesses => Event::RefreshProcesses,
            Message::ToggleProcess(pid) => Event::ToggleProcess(pid),
            Message::AskSignal(pid, signal) => Event::AskSignal(pid, signal),
            Message::CancelSignal => Event::CancelSignal,
            Message::ConfirmSignal => Event::ConfirmSignal,
            Message::SignalSent(result) => Event::SignalSent(link::result_of(result)),
        }
    }
}

// ---------------------------------------------------------------- effects

/// Something to be done outside.
#[derive(Debug)]
pub enum Effect {
    /// Open the popup and report its id.
    OpenPopup,
    /// Close the popup with this id.
    ClosePopup(u64),
    /// Turn the scan of the local processes on or off.
    Scan(bool),
    /// Ask a node agent for its process list.
    AskProcesses { target: String, token: Option<String> },
    /// Ask a node agent to signal a process.
    AskKill { target: String, token: Option<String>, pid: u32, signal: i32 },
    /// Signal a process of this machine and report what came of it.
    KillLocal { pid: u32, signal: i32 },
    /// Start an installation.
    Install(InstallRequest),
    /// Cancel the installation that is shown.
    CancelInstall,
    /// Load a model into an engine.
    Load { target: String, port: u16, model: String },
    /// Write the configuration and report `SettingsSaved`.
    SaveSettings,
    /// Write the configuration and report `NodeSaved`.
    SaveNode,
    /// Restart the agent connections with the configuration and report the
    /// first snapshot.
    Restart,
}

/// An effect as characters.
pub enum Deed {
    OpenPopup,
    ClosePopup(u64),
    Scan(bool),
    AskProcesses { target: Seq<char>, token: Option<Seq<char>> },
    AskKill { target: Seq<char>, token: Option<Seq<char>>, pid: u32, signal: i32 },
    KillLocal { pid: u32, signal: i32 },
    Install(Wish),
    CancelInstall,
    Load { target: Seq<char>, port: u16, model: Seq<char> },
    SaveSettings,
    SaveNode,
    Restart,
}

/// An optional text as characters.
pub open spec fn chars_in(value: Option<String>) -> Option<Seq<char>> {
    match value {
        Some(s) => Some(s@),
        None => None,
    }
}

impl View for Effect {
    type V = Deed;

    open spec fn view(&self) -> Deed {
        match *self {
            Effect::OpenPopup => Deed::OpenPopup,
            Effect::ClosePopup(id) => Deed::ClosePopup(id),
            Effect::Scan(on) => Deed::Scan(on),
            Effect::AskProcesses { target, token } => Deed::AskProcesses {
                target: target@,
                token: chars_in(token),
            },
            Effect::AskKill { target, token, pid, signal } => Deed::AskKill {
                target: target@,
                token: chars_in(token),
                pid,
                signal,
            },
            Effect::KillLocal { pid, signal } => Deed::KillLocal { pid, signal },
            Effect::Install(request) => Deed::Install(request@),
            Effect::CancelInstall => Deed::CancelInstall,
            Effect::Load { target, port, model } => Deed::Load {
                target: target@,
                port,
                model: model@,
            },
            Effect::SaveSettings => Deed::SaveSettings,
            Effect::SaveNode => Deed::SaveNode,
            Effect::Restart => Deed::Restart,
        }
    }
}

pub open spec fn deeds(list: Seq<Effect>) -> Seq<Deed> {
    list.map_values(|e: Effect| e@)
}

fn nothing() -> (r: Vec<Effect>)
    ensures
        deeds(r@) == Seq::<Deed>::empty(),
{
    let r: Vec<Effect> = Vec::new();
    assert(deeds(r@) =~= Seq::<Deed>::empty());
    r
}

fn just(effect: Effect) -> (r: Vec<Effect>)
    ensures
        deeds(r@) == seq![effect@],
{
    let mut r: Vec<Effect> = Vec::new();
    r.push(effect);
    assert(deeds(r@) =~= seq![effect@]);
    r
}

fn also(list: Vec<Effect>, effect: Effect) -> (r: Vec<Effect>)
    ensures
        deeds(r@) == deeds(list@).push(effect@),
{
    let mut r = list;
    let ghost before = r@;
    r.push(effect);
    assert(deeds(r@) =~= deeds(before).push(effect@));
    r
}

// ---------------------------------------------------------------- state

/// Everything the applet shows and remembers.
#[derive(Debug)]
pub struct Sysmon {
    pub popup: Option<u64>,
    pub spark_state: SparkSnapshot,
    pub spark_open: bool,
    pub config: SparkConfig,
    pub settings_open: bool,
    pub host_draft: String,
    pub note: Option<String>,
    /// Whether an installation is shown.
    pub installing: bool,
    pub install_state: InstallState,
    pub install_host: String,
    pub install_user: String,
    pub install_password: String,
    pub install_port: String,
    pub install_handled: bool,
    /// The dialog was opened to update an existing node.
    pub install_is_update: bool,
    /// Remote nodes whose details are expanded.
    pub expanded_remote: Vec<String>,
    /// Name of this machine.
    pub hostname: String,
    /// Engine whose model list is open: agent and port.
    pub models_open: Option<(String, u16)>,
    /// Whether a model load is shown.
    pub loading: bool,
    pub load_state: LoadState,
    /// Whether the process page is shown.
    pub procs_open: bool,
    /// Search text of the process page.
    pub proc_query: String,
    /// Column the process list is sorted by.
    pub proc_sort: SortKey,
    /// Selected host: 0 is this machine, the others are the targets.
    pub proc_host: usize,
    /// Last process list of the selected node agent.
    pub proc_remote: Option<ProcessList>,
    /// Whether a request to a node agent is awaited.
    pub asking: bool,
    /// Process and signal waiting for confirmation.
    pub proc_confirm: Option<(u32, i32)>,
    /// Process whose command line is expanded.
    pub proc_expanded: Option<u32>,
    /// Result of the last signal or node request.
    pub proc_note: Option<Result<String, String>>,
    /// Whether the local processes are scanned.
    pub scanning: bool,
}

/// The applet as characters.
pub struct Screen {
    pub popup: Option<u64>,
    pub spark_state: Snapshot,
    pub spark_open: bool,
    pub config: Config,
    pub settings_open: bool,
    pub host_draft: Seq<char>,
    pub note: Option<Seq<char>>,
    pub installing: bool,
    pub install_state: Progress,
    pub install_host: Seq<char>,
    pub install_user: Seq<char>,
    pub install_password: Seq<char>,
    pub install_port: Seq<char>,
    pub install_handled: bool,
    pub install_is_update: bool,
    pub expanded_remote: Seq<Seq<char>>,
    pub hostname: Seq<char>,
    pub models_open: Option<(Seq<char>, u16)>,
    pub loading: bool,
    pub load_state: Loading,
    pub procs_open: bool,
    pub proc_query: Seq<char>,
    pub proc_sort: SortKey,
    pub proc_host: usize,
    pub proc_remote: Option<Listing>,
    pub asking: bool,
    pub proc_confirm: Option<(u32, i32)>,
    pub proc_expanded: Option<u32>,
    pub proc_note: Option<Result<Seq<char>, Seq<char>>>,
    pub scanning: bool,
}

impl View for Sysmon {
    type V = Screen;

    open spec fn view(&self) -> Screen {
        Screen {
            popup: self.popup,
            spark_state: self.spark_state@,
            spark_open: self.spark_open,
            config: self.config@,
            settings_open: self.settings_open,
            host_draft: self.host_draft@,
            note: chars_in(self.note),
            installing: self.installing,
            install_state: self.install_state@,
            install_host: self.install_host@,
            install_user: self.install_user@,
            install_password: self.install_password@,
            install_port: self.install_port@,
            install_handled: self.install_handled,
            install_is_update: self.install_is_update,
            expanded_remote: text::views(self.expanded_remote@),
            hostname: self.hostname@,
            models_open: match self.models_open {
                Some((target, port)) => Some((target@, port)),
                None => None,
            },
            loading: self.loading,
            load_state: self.load_state@,
            procs_open: self.procs_open,
            proc_query: self.proc_query@,
            proc_sort: self.proc_sort,
            proc_host: self.proc_host,
            proc_remote: listing_in(self.proc_remote),
            asking: self.asking,
            proc_confirm: self.proc_confirm,
            proc_expanded: self.proc_expanded,
            proc_note: link::answer_of(self.proc_note),
            scanning: self.scanning,
        }
    }
}

/// No installation.
pub open spec fn idle() -> Progress {
    Progress { lines: Seq::empty(), status: InstallStatus::Idle }
}

/// No model load.
pub open spec fn unloaded() -> Loading {
    Loading { running: false, message: Seq::empty(), failed: false }
}

// ---------------------------------------------------------------- the selected host

/// Configured target of the selected host; `None` is this machine.
pub open spec fn chosen(s: Screen) -> Option<Seq<char>> {
    if s.proc_host == 0 || s.proc_host - 1 >= s.config.targets.len() {
        None
    } else {
        Some(s.config.targets[s.proc_host - 1])
    }
}

/// Whether some agent of a target reports a host name.
pub open spec fn reports(agents: Seq<Agent>, target: Seq<char>, host: Seq<char>) -> bool {
    exists|i: int|
        0 <= i < agents.len() && (#[trigger] agents[i]).label == target && agents[i].host == host
}

/// Whether the selected entry is this machine: the first entry is, and so is a
/// configured node whose agent reports this host name.
pub open spec fn is_local(s: Screen) -> bool {
    match chosen(s) {
        Some(target) => reports(s.spark_state.agents, target, s.hostname),
        None => true,
    }
}

/// The first agent of a target.
pub open spec fn agent_of(agents: Seq<Agent>, target: Seq<char>) -> Option<Agent> {
    spark::first_where(agents, |a: Agent| a.label == target)
}

/// Name of the selected host as the header shows it.
pub open spec fn host_label(s: Screen) -> Seq<char> {
    match chosen(s) {
        None => s.hostname + " (lokal)"@,
        Some(target) => {
            let name = match agent_of(s.spark_state.agents, target) {
                Some(agent) => spark::display_name_of(agent),
                None => target,
            };
            if is_local(s) {
                name + " (lokal)"@
            } else {
                name
            }
        },
    }
}

/// Whether the selected agent is new enough for the process actions; one that
/// did not report yet is given the benefit of the doubt.
pub open spec fn agent_ready(s: Screen) -> bool {
    match chosen(s) {
        None => true,
        Some(target) => match agent_of(s.spark_state.agents, target) {
            Some(agent) => procs::knows_processes(agent.version),
            None => true,
        },
    }
}

/// The first agent of a target.
pub fn find_agent<'a>(agents: &'a Vec<AgentState>, target: &str) -> (r: Option<&'a AgentState>)
    ensures
        match r {
            Some(agent) => agent_of(spark::agent_views(agents@), target@) == Some(agent@),
            None => agent_of(spark::agent_views(agents@), target@) is None,
        },
{
    let ghost all = spark::agent_views(agents@);
    let ghost f = |a: Agent| a.label == target@;
    let mut i: usize = 0;
    assert(all.skip(0) =~= all);
    while i < agents.len()
        invariant
            i <= agents@.len(),
            all == spark::agent_views(agents@),
            f == (|a: Agent| a.label == target@),
            spark::first_where(all, f) == spark::first_where(all.skip(i as int), f),
        decreases agents@.len() - i,
    {
        assert(all.skip(i as int)[0] == agents@[i as int]@);
        assert(all.skip(i as int).drop_first() =~= all.skip(i + 1));
        if text::same(agents[i].label.as_str(), target) {
            return Some(&agents[i]);
        }
        i += 1;
    }
    None
}

impl Sysmon {
    /// Configured target of the selected host; `None` is this machine.
    pub fn selected_target(&self) -> (r: Option<&String>)
        ensures
            match r {
                Some(target) => chosen(self@) == Some(target@),
                None => chosen(self@) is None,
            },
    {
        assert(text::views(self.config.targets@).len() == self.config.targets@.len());
        if self.proc_host == 0 || self.proc_host - 1 >= self.config.targets.len() {
            None
        } else {
            Some(&self.config.targets[self.proc_host - 1])
        }
    }

    /// True when the selected entry is this machine.
    pub fn selected_is_local(&self) -> (r: bool)
        ensures
            r == is_local(self@),
    {
        match self.selected_target() {
            None => true,
            Some(target) => {
                let ghost all = self@.spark_state.agents;
                let mut i: usize = 0;
                while i < self.spark_state.agents.len()
                    invariant
                        i <= self.spark_state.agents@.len(),
                        all == spark::agent_views(self.spark_state.agents@),
                        chosen(self@) == Some(target@),
                        forall|k: int|
                            0 <= k < i ==> !((#[trigger] all[k]).label == target@ && all[k].host
                                == self.hostname@),
                    decreases self.spark_state.agents@.len() - i,
                {
                    let agent = &self.spark_state.agents[i];
                    assert(all[i as int] == agent@);
                    if text::same(agent.label.as_str(), target.as_str()) && text::same(
                        agent.host.as_str(),
                        self.hostname.as_str(),
                    ) {
                        return true;
                    }
                    i += 1;
                }
                false
            },
        }
    }

    /// Name of the selected host as the header shows it.
    pub fn selected_host_label(&self) -> (r: String)
        ensures
            r@ == host_label(self@),
    {
        match self.selected_target() {
            None => text::cat2(self.hostname.as_str(), " (lokal)"),
            Some(target) => {
                let name = match find_agent(&self.spark_state.agents, target.as_str()) {
                    Some(agent) => agent.display_name(),
                    None => text::copy(target.as_str()),
                };
                if self.selected_is_local() {
                    text::cat2(name.as_str(), " (lokal)")
                } else {
                    name
                }
            },
        }
    }

    /// False while the selected agent is too old for the process actions.
    pub fn selected_agent_ready(&self) -> (r: bool)
        ensures
            r == agent_ready(self@),
    {
        match self.selected_target() {
            None => true,
            Some(target) => match find_agent(&self.spark_state.agents, target.as_str()) {
                Some(agent) => procs::supports_processes(agent.version.as_str()),
                None => true,
            },
        }
    }
}

/// No rows, and nothing wrong.
pub open spec fn no_listing() -> Listing {
    Listing { entries: Seq::empty(), total: 0, cores: 0, error: None }
}

/// Rows of the selected host, given those of this machine.
pub open spec fn current_listing(s: Screen, local: Listing) -> Listing {
    if is_local(s) {
        local
    } else {
        match s.proc_remote {
            Some(list) => list,
            None => no_listing(),
        }
    }
}

/// The first row of a process.
pub open spec fn row_of(rows: Seq<Process>, pid: u32) -> Option<Process>
    decreases rows.len(),
{
    if rows.len() == 0 {
        None
    } else if rows[0].pid == pid {
        Some(rows[0])
    } else {
        row_of(rows.drop_first(), pid)
    }
}

/// The row of a process in a list.
pub fn find_row(rows: &Vec<ProcessEntry>, pid: u32) -> (r: Option<ProcessEntry>)
    ensures
        match r {
            Some(entry) => row_of(procs::rows(rows@), pid) == Some(entry@),
            None => row_of(procs::rows(rows@), pid) is None,
        },
{
    let ghost all = procs::rows(rows@);
    let mut i: usize = 0;
    assert(all.skip(0) =~= all);
    while i < rows.len()
        invariant
            i <= rows@.len(),
            all == procs::rows(rows@),
            row_of(all, pid) == row_of(all.skip(i as int), pid),
        decreases rows@.len() - i,
    {
        assert(all.skip(i as int)[0] == rows@[i as int]@);
        assert(all.skip(i as int).drop_first() =~= all.skip(i + 1));
        if rows[i].pid == pid {
            return Some(rows[i].copy());
        }
        i += 1;
    }
    None
}

impl Sysmon {
    /// Rows of the selected host, given those of this machine; none while a
    /// node agent has not sent any.
    pub fn current_process_list(&self, local: &ProcessList) -> (r: ProcessList)
        ensures
            r@ == current_listing(self@, local@),
    {
        if self.selected_is_local() {
            local.copy()
        } else {
            match &self.proc_remote {
                Some(list) => list.copy(),
                None => ProcessList::default(),
            }
        }
    }

    /// The row of a process on the selected host.
    pub fn find_process(&self, local: &ProcessList, pid: u32) -> (r: Option<ProcessEntry>)
        ensures
            match r {
                Some(entry) => row_of(current_listing(self@, local@).entries, pid) == Some(entry@),
                None => row_of(current_listing(self@, local@).entries, pid) is None,
            },
    {
        let list = self.current_process_list(local);
        find_row(&list.entries, pid)
    }
}

// ---------------------------------------------------------------- transitions

/// What follows: the applet afterwards, and what is done outside.
pub open spec fn quiet(s: Screen) -> (Screen, Seq<Deed>) {
    (s, Seq::empty())
}

/// The process list of the selected host is asked for: this machine is scanned,
/// a node agent is sent a request.
pub open spec fn refreshed(s: Screen) -> (Screen, Seq<Deed>) {
    if is_local(s) {
        (Screen { scanning: true, ..s }, seq![Deed::Scan(true)])
    } else {
        (
            Screen { asking: true, ..s },
            seq![Deed::AskProcesses { target: chosen(s)->0, token: s.config.token }],
        )
    }
}

/// A signal is sent on the selected host.
pub open spec fn signalled(s: Screen, pid: u32, signal: i32) -> (Screen, Seq<Deed>) {
    if is_local(s) {
        (s, seq![Deed::KillLocal { pid, signal }])
    } else {
        (
            Screen { asking: true, ..s },
            seq![Deed::AskKill { target: chosen(s)->0, token: s.config.token, pid, signal }],
        )
    }
}

/// The request that the dialog describes.
pub open spec fn wish_of(s: Screen) -> Wish {
    Wish {
        host: text::trimmed(s.install_host),
        user: text::trimmed(s.install_user),
        password: s.install_password,
        port: match text::unsigned_literal(text::trimmed(s.install_port), 10, u16::MAX as int) {
            Some(port) => port as u16,
            None => 22,
        },
    }
}

/// Whether an installation has ended.
pub open spec fn ended(state: Progress) -> bool {
    state.status is Done || state.status is Failed
}

/// The installation of the host in the dialog begins, unless one is running. The
/// password leaves the dialog.
pub open spec fn install_started(s: Screen) -> (Screen, Seq<Deed>) {
    if s.installing && !ended(s.install_state) {
        quiet(s)
    } else {
        (
            Screen {
                installing: true,
                install_state: idle(),
                install_handled: false,
                install_password: Seq::empty(),
                ..s
            },
            seq![Deed::Install(wish_of(s))],
        )
    }
}

/// A configuration with one more target.
pub open spec fn with_target(config: Config, target: Seq<char>) -> Config {
    Config { targets: config.targets.push(target), ..config }
}

/// The progress of the installation is shown; a host on which it succeeded is
/// adopted, once.
pub open spec fn install_polled(s: Screen, state: Option<Progress>) -> (Screen, Seq<Deed>) {
    match state {
        Some(state) => if !s.installing {
            quiet(s)
        } else {
            let seen = Screen { install_state: state, ..s };
            if !ended(state) || s.install_handled {
                quiet(seen)
            } else {
                let handled = Screen { install_handled: true, ..seen };
                let host = text::trimmed(s.install_host);
                if state.status is Done && host.len() > 0 && !s.config.targets.contains(host) {
                    (
                        Screen {
                            config: with_target(s.config, host + ":8787"@),
                            ..handled
                        },
                        seq![Deed::SaveNode],
                    )
                } else {
                    quiet(handled)
                }
            }
        },
        None => quiet(s),
    }
}

/// The list of a finished request is shown, and its error.
pub open spec fn list_arrived(s: Screen, list: Option<Listing>) -> Screen {
    match list {
        Some(list) => Screen {
            proc_remote: Some(list),
            proc_note: match list.error {
                Some(error) => Some(Err(error)),
                None => s.proc_note,
            },
            ..s
        },
        None => s,
    }
}

/// What came of a signal is shown; after a delivered one the list is asked for
/// again.
pub open spec fn answer_arrived(
    s: Screen,
    kill: Option<Result<Seq<char>, Seq<char>>>,
) -> (Screen, Seq<Deed>) {
    match kill {
        Some(result) => {
            let noted = Screen { proc_note: Some(result), ..s };
            if result is Ok {
                refreshed(noted)
            } else {
                quiet(noted)
            }
        },
        None => quiet(s),
    }
}

/// A finished request to a node agent is taken over.
pub open spec fn task_polled(s: Screen, task: Option<Task>) -> (Screen, Seq<Deed>) {
    match task {
        Some(task) => if !s.asking || task.running {
            quiet(s)
        } else {
            answer_arrived(list_arrived(Screen { asking: false, ..s }, task.list), task.kill)
        },
        None => quiet(s),
    }
}

/// Without a popup nothing is scanned or asked.
pub open spec fn at_rest(s: Screen) -> Screen {
    Screen { popup: None, scanning: false, asking: false, ..s }
}

/// The popup opens or closes.
pub open spec fn popup_toggled(s: Screen) -> (Screen, Seq<Deed>) {
    match s.popup {
        Some(id) => (at_rest(s), seq![Deed::ClosePopup(id), Deed::Scan(false)]),
        None => (s, seq![Deed::OpenPopup]),
    }
}

/// The progress of a model load is shown.
pub open spec fn load_polled(s: Screen, load: Option<Loading>) -> Screen {
    match load {
        Some(state) => if s.loading {
            Screen { load_state: state, ..s }
        } else {
            s
        },
        None => s,
    }
}

/// The rest of a second.
pub open spec fn polled(
    s: Screen,
    task: Option<Task>,
    load: Option<Loading>,
    keep_popup: bool,
) -> (Screen, Seq<Deed>) {
    let (after, first) = task_polled(s, task);
    let shown = load_polled(after, load);
    if shown.popup is None && keep_popup {
        (shown, first.push(Deed::OpenPopup))
    } else {
        (shown, first)
    }
}

/// Whether a list holds a text, whatever its case.
pub open spec fn holds_ignoring_case(list: Seq<Seq<char>>, item: Seq<char>) -> bool {
    exists|i: int|
        0 <= i < list.len() && text::ascii_lower(#[trigger] list[i]) == text::ascii_lower(item)
}

/// The first place of a text in a list.
pub open spec fn place_of(list: Seq<Seq<char>>, item: Seq<char>) -> Option<int>
    decreases list.len(),
{
    if list.len() == 0 {
        None
    } else if list[0] == item {
        Some(0)
    } else {
        match place_of(list.drop_first(), item) {
            Some(i) => Some(i + 1),
            None => None,
        }
    }
}

/// A list without the first place of a text, or with it at the end.
pub open spec fn switched(list: Seq<Seq<char>>, item: Seq<char>) -> Seq<Seq<char>> {
    match place_of(list, item) {
        Some(i) => list.remove(i),
        None => list.push(item),
    }
}

/// What a saved configuration is answered with.
pub open spec fn saved_text(prefix: Seq<char>, result: Result<Seq<char>, Seq<char>>) -> Seq<char> {
    match result {
        Ok(path) => prefix + path,
        Err(error) => "Speichern fehlgeschlagen: "@ + error,
    }
}

/// What the messages of the popup and of the clock do; others do nothing.
#[verifier::opaque]
pub open spec fn popup_next(s: Screen, event: Event) -> (Screen, Seq<Deed>) {
    match event {
        Event::Tick { snapshot, install } => install_polled(
            Screen { spark_state: snapshot, ..s },
            install,
        ),
        Event::Polled { task, load, keep_popup } => polled(s, task, load, keep_popup),
        Event::TogglePopup => popup_toggled(s),
        Event::PopupOpened(id) => (
            Screen { popup: Some(id), scanning: s.procs_open, ..s },
            seq![Deed::Scan(s.procs_open)],
        ),
        Event::PopupClosed(id) => if s.popup == Some(id) {
            (Screen { proc_confirm: None, ..at_rest(s) }, seq![Deed::Scan(false)])
        } else {
            quiet(s)
        },
        Event::ToggleRemote(target) => quiet(
            Screen { expanded_remote: switched(s.expanded_remote, target), ..s },
        ),
        Event::OpenModels(target, port) => quiet(
            Screen {
                models_open: Some((target, port)),
                loading: false,
                load_state: unloaded(),
                ..s
            },
        ),
        Event::LoadModel(model) => match s.models_open {
            Some((target, port)) => (
                Screen { loading: true, ..s },
                seq![Deed::Load { target, port, model }],
            ),
            None => quiet(s),
        },
        Event::CloseModels => quiet(
            Screen { models_open: None, loading: false, load_state: unloaded(), ..s },
        ),
        _ => quiet(s),
    }
}

/// What the messages of the settings page do; others do nothing.
#[verifier::opaque]
pub open spec fn settings_next(s: Screen, event: Event) -> (Screen, Seq<Deed>) {
    match event {
        Event::ToggleSpark => quiet(Screen { spark_open: !s.spark_open, ..s }),
        Event::ToggleSettings => quiet(
            Screen { settings_open: !s.settings_open, note: None, ..s },
        ),
        Event::HostDraft(value) => quiet(Screen { host_draft: value, ..s }),
        Event::AddHost => {
            let host = text::trimmed(s.host_draft);
            if host.len() > 0 && !holds_ignoring_case(s.config.targets, host) {
                quiet(
                    Screen {
                        config: with_target(s.config, host),
                        host_draft: Seq::empty(),
                        ..s
                    },
                )
            } else {
                quiet(s)
            }
        },
        Event::RemoveHost(index) => if index < s.config.targets.len() {
            quiet(
                Screen {
                    config: Config {
                        targets: s.config.targets.remove(index as int),
                        ..s.config
                    },
                    ..s
                },
            )
        } else {
            quiet(s)
        },
        Event::ToggleDiscovered => quiet(
            Screen {
                config: Config { use_discovered: !s.config.use_discovered, ..s.config },
                ..s
            },
        ),
        Event::ToggleSharedCache => quiet(
            Screen { config: Config { shared_cache: !s.config.shared_cache, ..s.config }, ..s },
        ),
        Event::ToggleLocalCharts => quiet(
            Screen {
                config: Config { show_local_charts: !s.config.show_local_charts, ..s.config },
                ..s
            },
        ),
        Event::ToggleSectionOpen => quiet(
            Screen {
                config: Config { spark_section_open: !s.config.spark_section_open, ..s.config },
                spark_open: !s.config.spark_section_open,
                ..s
            },
        ),
        Event::SaveSettings => (s, seq![Deed::SaveSettings]),
        Event::SettingsSaved(result) => (
            Screen { note: Some(saved_text("Gespeichert in "@, result)), ..s },
            if result is Ok {
                seq![Deed::Restart]
            } else {
                Seq::empty()
            },
        ),
        Event::NodeSaved(result) => (
            Screen {
                note: Some(saved_text("Knoten aufgenommen, gespeichert in "@, result)),
                ..s
            },
            seq![Deed::Restart],
        ),
        Event::Restarted(snapshot) => quiet(Screen { spark_state: snapshot, ..s }),
        _ => quiet(s),
    }
}

/// What the messages of the installer dialog do; others do nothing.
#[verifier::opaque]
pub open spec fn installer_next(s: Screen, event: Event) -> (Screen, Seq<Deed>) {
    match event {
        Event::OpenInstaller => quiet(
            Screen {
                install_host: if text::trimmed(s.host_draft).len() == 0 {
                    s.install_host
                } else {
                    text::trimmed(s.host_draft)
                },
                install_state: idle(),
                installing: false,
                install_handled: false,
                install_is_update: false,
                settings_open: false,
                ..s
            },
        ),
        Event::InstallHost(value) => quiet(Screen { install_host: value, ..s }),
        Event::InstallUser(value) => quiet(Screen { install_user: value, ..s }),
        Event::InstallPassword(value) => quiet(Screen { install_password: value, ..s }),
        Event::InstallPort(value) => quiet(Screen { install_port: value, ..s }),
        Event::StartInstall => install_started(s),
        Event::AddHostOnly => {
            let host = text::trimmed(s.install_host);
            let closed = Screen {
                installing: false,
                install_host: Seq::empty(),
                settings_open: true,
                ..s
            };
            if host.len() > 0 && !s.config.targets.contains(host) {
                quiet(
                    Screen {
                        config: with_target(s.config, host),
                        host_draft: Seq::empty(),
                        ..closed
                    },
                )
            } else {
                quiet(closed)
            }
        },
        Event::CloseInstaller => quiet(
            Screen {
                installing: false,
                install_state: idle(),
                install_host: Seq::empty(),
                host_draft: Seq::empty(),
                install_is_update: false,
                settings_open: true,
                ..s
            },
        ),
        Event::CancelInstall => if s.installing {
            (s, seq![Deed::CancelInstall])
        } else {
            quiet(s)
        },
        Event::UpdateAgent(target) => {
            let host = text::pieces(target, ':')[0];
            (
                Screen {
                    install_host: host,
                    install_is_update: host.len() > 0,
                    install_state: idle(),
                    installing: false,
                    install_handled: false,
                    settings_open: false,
                    procs_open: false,
                    scanning: false,
                    asking: false,
                    ..s
                },
                seq![Deed::Scan(false)],
            )
        },
        _ => quiet(s),
    }
}

/// What the messages of the process page do; others do nothing.
#[verifier::opaque]
pub open spec fn process_next(s: Screen, event: Event) -> (Screen, Seq<Deed>) {
    match event {
        Event::OpenProcesses => {
            let (after, rest) = refreshed(
                Screen {
                    procs_open: true,
                    proc_note: None,
                    proc_confirm: None,
                    scanning: true,
                    ..s
                },
            );
            (after, seq![Deed::Scan(true)] + rest)
        },
        Event::CloseProcesses => (
            Screen {
                procs_open: false,
                scanning: false,
                asking: false,
                proc_remote: None,
                proc_confirm: None,
                proc_expanded: None,
                ..s
            },
            seq![Deed::Scan(false)],
        ),
        Event::ProcessQuery(value) => quiet(Screen { proc_query: value, ..s }),
        Event::ProcessSort(key) => quiet(Screen { proc_sort: key, ..s }),
        Event::ProcessHost(index) => if index == s.proc_host {
            quiet(s)
        } else {
            refreshed(
                Screen {
                    proc_host: index,
                    proc_remote: None,
                    proc_expanded: None,
                    proc_confirm: None,
                    proc_note: None,
                    ..s
                },
            )
        },
        Event::RefreshProcesses => refreshed(s),
        Event::ToggleProcess(pid) => quiet(
            Screen {
                proc_expanded: if s.proc_expanded == Some(pid) {
                    None
                } else {
                    Some(pid)
                },
                ..s
            },
        ),
        Event::AskSignal(pid, signal) => quiet(
            Screen { proc_confirm: Some((pid, signal)), proc_note: None, ..s },
        ),
        Event::CancelSignal => quiet(Screen { proc_confirm: None, ..s }),
        Event::ConfirmSignal => match s.proc_confirm {
            Some((pid, signal)) => signalled(Screen { proc_confirm: None, ..s }, pid, signal),
            None => quiet(s),
        },
        Event::SignalSent(result) => quiet(Screen { proc_note: Some(result), ..s }),
        _ => quiet(s),
    }
}

/// What a message does.
pub open spec fn next(s: Screen, event: Event) -> (Screen, Seq<Deed>) {
    match event {
        Event::Tick { .. }
        | Event::Polled { .. }
        | Event::TogglePopup
        | Event::PopupOpened(_)
        | Event::PopupClosed(_)
        | Event::ToggleRemote(_)
        | Event::OpenModels(_, _)
        | Event::LoadModel(_)
        | Event::CloseModels => popup_next(s, event),
        Event::ToggleSpark
        | Event::ToggleSettings
        | Event::HostDraft(_)
        | Event::AddHost
        | Event::RemoveHost(_)
        | Event::ToggleDiscovered
        | Event::ToggleSharedCache
        | Event::ToggleLocalCharts
        | Event::ToggleSectionOpen
        | Event::SaveSettings
        | Event::SettingsSaved(_)
        | Event::NodeSaved(_)
        | Event::Restarted(_) => settings_next(s, event),
        Event::OpenInstaller
        | Event::InstallHost(_)
        | Event::InstallUser(_)
        | Event::InstallPassword(_)
        | Event::InstallPort(_)
        | Event::StartInstall
        | Event::AddHostOnly
        | Event::CloseInstaller
        | Event::CancelInstall
        | Event::UpdateAgent(_) => installer_next(s, event),
        _ => process_next(s, event),
    }
}

fn empty() -> (r: String)
    ensures
        r@ == Seq::<char>::empty(),
{
    let r = String::new();
    assert(r@ =~= Seq::<char>::empty());
    r
}

fn no_load() -> (r: LoadState)
    ensures
        r@ == unloaded(),
{
    LoadState { running: false, message: empty(), failed: false }
}

fn copy_token(token: &Option<String>) -> (r: Option<String>)
    ensures
        chars_in(r) == chars_in(*token),
{
    match token {
        Some(t) => Some(text::copy(t.as_str())),
        None => None,
    }
}

fn holds_folded(list: &Vec<String>, item: &str) -> (r: bool)
    ensures
        r == holds_ignoring_case(text::views(list@), item@),
{
    let ghost all = text::views(list@);
    let mut i: usize = 0;
    while i < list.len()
        invariant
            i <= list@.len(),
            all == text::views(list@),
            forall|k: int|
                0 <= k < i ==> text::ascii_lower(#[trigger] all[k]) != text::ascii_lower(item@),
        decreases list@.len() - i,
    {
        assert(all[i as int] == list@[i as int]@);
        if text::same_ignoring_case(list[i].as_str(), item) {
            return true;
        }
        i += 1;
    }
    false
}

fn switch(list: &mut Vec<String>, item: String)
    ensures
        text::views(final(list)@) == switched(text::views(old(list)@), item@),
{
    let ghost all = text::views(list@);
    let n: usize = list.len();
    let mut i: usize = 0;
    assert(all.skip(0) =~= all);
    while i < n
        invariant
            i <= n == list@.len(),
            *list == *old(list),
            all == text::views(list@),
            place_of(all, item@) == (match place_of(all.skip(i as int), item@) {
                Some(k) => Some(k + i),
                None => None::<int>,
            }),
        decreases n - i,
    {
        assert(all.skip(i as int)[0] == list@[i as int]@);
        assert(all.skip(i as int).drop_first() =~= all.skip(i + 1));
        if text::same(list[i].as_str(), item.as_str()) {
            list.remove(i);
            assert(text::views(list@) =~= all.remove(i as int));
            return ;
        }
        i += 1;
    }
    list.push(item);
    assert(text::views(list@) =~= all.push(item@));
}

impl Sysmon {
    /// Starts a process request for the selected host.
    ///
    /// The local machine is scanned on its own; a node agent is asked.
    pub fn refresh_processes(&mut self) -> (r: Vec<Effect>)
        ensures
            (final(self)@, deeds(r@)) == refreshed(old(self)@),
    {
        let local = self.selected_is_local();
        match self.selected_target() {
            Some(target) => {
                if local {
                    self.scanning = true;
                    return just(Effect::Scan(true));
                }
                let target = text::copy(target.as_str());
                let token = copy_token(&self.config.token);
                self.asking = true;
                just(Effect::AskProcesses { target, token })
            },
            None => {
                self.scanning = true;
                just(Effect::Scan(true))
            },
        }
    }

    /// Sends the confirmed signal to the selected host.
    pub fn perform_signal(&mut self, pid: u32, signal: i32) -> (r: Vec<Effect>)
        ensures
            (final(self)@, deeds(r@)) == signalled(old(self)@, pid, signal),
    {
        let local = self.selected_is_local();
        match self.selected_target() {
            Some(target) => {
                if local {
                    return just(Effect::KillLocal { pid, signal });
                }
                let target = text::copy(target.as_str());
                let token = copy_token(&self.config.token);
                self.asking = true;
                just(Effect::AskKill { target, token, pid, signal })
            },
            None => just(Effect::KillLocal { pid, signal }),
        }
    }

    /// Starts the installation for the host in the dialog.
    pub fn start_install(&mut self) -> (r: Vec<Effect>)
        ensures
            (final(self)@, deeds(r@)) == install_started(old(self)@),
    {
        if self.installing && !self.install_state.is_finished() {
            return nothing();
        }
        let port_text = text::trim(self.install_port.as_str());
        let port: u16 = match text::parse_u16(port_text.as_str()) {
            Some(port) => port,
            None => 22,
        };
        let request = InstallRequest {
            host: text::trim(self.install_host.as_str()),
            user: text::trim(self.install_user.as_str()),
            password: text::copy(self.install_password.as_str()),
            port,
        };
        self.install_password = empty();
        self.installing = true;
        self.install_state = InstallState::default();
        self.install_handled = false;
        assert(request@ == wish_of(old(self)@));
        just(Effect::Install(request))
    }

    /// Starts the installation of the entered host on its own, where that is
    /// wanted and none is shown.
    pub fn auto_install(&mut self, wanted: bool) -> (r: Vec<Effect>)
        ensures
            (final(self)@, deeds(r@)) == (if !old(self)@.installing
                && old(self)@.install_host.len() > 0 && wanted {
                install_started(old(self)@)
            } else {
                quiet(old(self)@)
            }),
    {
        if !self.installing && !text::is_empty(self.install_host.as_str()) && wanted {
            self.start_install()
        } else {
            nothing()
        }
    }

    /// Mirrors the installer state into the UI and adopts a successful host.
    fn poll_installer(&mut self, state: Option<InstallState>) -> (r: Vec<Effect>)
        ensures
            (final(self)@, deeds(r@)) == install_polled(
                old(self)@,
                progress_in(state),
            ),
    {
        match state {
            Some(state) => {
                if !self.installing {
                    return nothing();
                }
                let finished = state.is_finished();
                let good = state.succeeded();
                self.install_state = state;
                if !finished || self.install_handled {
                    return nothing();
                }
                self.install_handled = true;
                if good {
                    let host = text::trim(self.install_host.as_str());
                    if !text::is_empty(host.as_str()) && !text::holds(
                        &self.config.targets,
                        host.as_str(),
                    ) {
                        self.add_target(text::cat2(host.as_str(), ":8787"));
                        return just(Effect::SaveNode);
                    }
                }
                nothing()
            },
            None => nothing(),
        }
    }

    fn add_target(&mut self, target: String)
        ensures
            final(self)@ == (Screen {
                config: with_target(old(self)@.config, target@),
                ..old(self)@
            }),
    {
        self.config.add_target(target);
    }

    /// Adopts a finished agent request and refreshes after a signal.
    fn poll_process_task(&mut self, task: Option<TaskSnapshot>) -> (r: Vec<Effect>)
        ensures
            (final(self)@, deeds(r@)) == task_polled(
                old(self)@,
                task_in(task),
            ),
    {
        match task {
            Some(state) => {
                if !self.asking || state.running {
                    return nothing();
                }
                let TaskSnapshot { running: _, list, kill } = state;
                self.asking = false;
                self.take_list(list);
                self.take_answer(kill)
            },
            None => nothing(),
        }
    }

    fn take_list(&mut self, list: Option<ProcessList>)
        ensures
            final(self)@ == list_arrived(
                old(self)@,
                listing_in(list),
            ),
    {
        if let Some(list) = list {
            if let Some(error) = &list.error {
                self.proc_note = Some(Err(text::copy(error.as_str())));
            }
            self.proc_remote = Some(list);
        }
    }

    fn take_answer(&mut self, kill: Option<Result<String, String>>) -> (r: Vec<Effect>)
        ensures
            (final(self)@, deeds(r@)) == answer_arrived(old(self)@, link::answer_of(kill)),
    {
        match kill {
            Some(result) => {
                let delivered = result.is_ok();
                self.proc_note = Some(result);
                if delivered {
                    self.refresh_processes()
                } else {
                    nothing()
                }
            },
            None => nothing(),
        }
    }
}

impl Sysmon {
    /// Shows how far the model load is.
    fn poll_loader(&mut self, load: Option<LoadState>)
        ensures
            final(self)@ == load_polled(old(self)@, loading_in(load)),
    {
        if let Some(state) = load {
            if self.loading {
                self.load_state = state;
            }
        }
    }

    /// The rest of a second.
    fn poll(
        &mut self,
        task: Option<TaskSnapshot>,
        load: Option<LoadState>,
        keep_popup: bool,
    ) -> (r: Vec<Effect>)
        ensures
            (final(self)@, deeds(r@)) == polled(
                old(self)@,
                task_in(task),
                loading_in(load),
                keep_popup,
            ),
    {
        let effects = self.poll_process_task(task);
        self.poll_loader(load);
        if self.popup.is_none() && keep_popup {
            return also(effects, Effect::OpenPopup);
        }
        effects
    }

    fn rest_of_second(
        &mut self,
        task: Option<TaskSnapshot>,
        load: Option<LoadState>,
        keep_popup: bool,
    ) -> (r: Vec<Effect>)
        ensures
            (final(self)@, deeds(r@)) == popup_next(
                old(self)@,
                Event::Polled { task: task_in(task), load: loading_in(load), keep_popup },
            ),
    {
        reveal(popup_next);
        self.poll(task, load, keep_popup)
    }

    /// Without a popup nothing is scanned or asked.
    fn rest(&mut self)
        ensures
            final(self)@ == at_rest(old(self)@),
    {
        self.popup = None;
        self.scanning = false;
        self.asking = false;
    }

    /// Opens or closes the popup.
    fn toggle_popup(&mut self) -> (r: Vec<Effect>)
        ensures
            (final(self)@, deeds(r@)) == popup_next(old(self)@, Event::TogglePopup),
    {
        reveal(popup_next);
        match self.popup {
            Some(id) => {
                self.rest();
                also(just(Effect::ClosePopup(id)), Effect::Scan(false))
            },
            None => just(Effect::OpenPopup),
        }
    }

    fn popup_closed(&mut self, id: u64) -> (r: Vec<Effect>)
        ensures
            (final(self)@, deeds(r@)) == popup_next(old(self)@, Event::PopupClosed(id)),
    {
        reveal(popup_next);
        let own = match self.popup {
            Some(open) => open == id,
            None => false,
        };
        if own {
            self.rest();
            self.proc_confirm = None;
            just(Effect::Scan(false))
        } else {
            nothing()
        }
    }

    fn add_host(&mut self) -> (r: Vec<Effect>)
        ensures
            (final(self)@, deeds(r@)) == settings_next(old(self)@, Event::AddHost),
    {
        reveal(settings_next);
        let host = text::trim(self.host_draft.as_str());
        if !text::is_empty(host.as_str()) && !holds_folded(&self.config.targets, host.as_str()) {
            self.add_target(host);
            self.host_draft = empty();
        }
        nothing()
    }

    fn remove_host(&mut self, index: usize) -> (r: Vec<Effect>)
        ensures
            (final(self)@, deeds(r@)) == settings_next(old(self)@, Event::RemoveHost(index)),
    {
        reveal(settings_next);
        self.config.remove_target(index);
        nothing()
    }

    fn open_installer(&mut self) -> (r: Vec<Effect>)
        ensures
            (final(self)@, deeds(r@)) == installer_next(old(self)@, Event::OpenInstaller),
    {
        reveal(installer_next);
        let draft = text::trim(self.host_draft.as_str());
        if !text::is_empty(draft.as_str()) {
            self.install_host = draft;
        }
        self.install_state = InstallState::default();
        self.installing = false;
        self.install_handled = false;
        self.install_is_update = false;
        self.settings_open = false;
        nothing()
    }

    fn add_host_only(&mut self) -> (r: Vec<Effect>)
        ensures
            (final(self)@, deeds(r@)) == installer_next(old(self)@, Event::AddHostOnly),
    {
        reveal(installer_next);
        let host = text::trim(self.install_host.as_str());
        if !text::is_empty(host.as_str()) && !text::holds(&self.config.targets, host.as_str()) {
            self.add_target(host);
            self.host_draft = empty();
        }
        self.installing = false;
        self.install_host = empty();
        self.settings_open = true;
        nothing()
    }

    fn close_installer(&mut self) -> (r: Vec<Effect>)
        ensures
            (final(self)@, deeds(r@)) == installer_next(old(self)@, Event::CloseInstaller),
    {
        reveal(installer_next);
        self.installing = false;
        self.install_state = InstallState::default();
        self.install_host = empty();
        self.host_draft = empty();
        self.install_is_update = false;
        self.settings_open = true;
        nothing()
    }

    fn update_agent(&mut self, target: &str) -> (r: Vec<Effect>)
        ensures
            (final(self)@, deeds(r@)) == installer_next(old(self)@, Event::UpdateAgent(target@)),
    {
        reveal(installer_next);
        let parts = text::split_char(target, ':');
        proof {
            assert(text::pieces(target@, ':').len() == parts@.len());
            assert(text::pieces(target@, ':')[0] == parts@[0]@);
        }
        self.install_host = text::copy(parts[0].as_str());
        self.install_is_update = !text::is_empty(self.install_host.as_str());
        self.install_state = InstallState::default();
        self.installing = false;
        self.install_handled = false;
        self.settings_open = false;
        self.procs_open = false;
        self.scanning = false;
        self.asking = false;
        just(Effect::Scan(false))
    }

    fn toggle_remote(&mut self, target: String) -> (r: Vec<Effect>)
        ensures
            (final(self)@, deeds(r@)) == popup_next(old(self)@, Event::ToggleRemote(target@)),
    {
        reveal(popup_next);
        let mut list: Vec<String> = Vec::new();
        std::mem::swap(&mut list, &mut self.expanded_remote);
        switch(&mut list, target);
        self.expanded_remote = list;
        nothing()
    }

    fn load_model(&mut self, model: String) -> (r: Vec<Effect>)
        ensures
            (final(self)@, deeds(r@)) == popup_next(old(self)@, Event::LoadModel(model@)),
    {
        reveal(popup_next);
        match &self.models_open {
            Some((target, port)) => {
                let effect = Effect::Load {
                    target: text::copy(target.as_str()),
                    port: *port,
                    model,
                };
                self.loading = true;
                just(effect)
            },
            None => nothing(),
        }
    }

    fn settings_saved(&mut self, result: Result<String, String>) -> (r: Vec<Effect>)
        ensures
            (final(self)@, deeds(r@)) == settings_next(
                old(self)@,
                Event::SettingsSaved(link::result_of(result)),
            ),
    {
        reveal(settings_next);
        match result {
            Ok(path) => {
                self.note = Some(text::cat2("Gespeichert in ", path.as_str()));
                just(Effect::Restart)
            },
            Err(error) => {
                self.note = Some(text::cat2("Speichern fehlgeschlagen: ", error.as_str()));
                nothing()
            },
        }
    }

    fn node_saved(&mut self, result: Result<String, String>) -> (r: Vec<Effect>)
        ensures
            (final(self)@, deeds(r@)) == settings_next(
                old(self)@,
                Event::NodeSaved(link::result_of(result)),
            ),
    {
        reveal(settings_next);
        self.note = Some(
            match result {
                Ok(path) => text::cat2("Knoten aufgenommen, gespeichert in ", path.as_str()),
                Err(error) => text::cat2("Speichern fehlgeschlagen: ", error.as_str()),
            },
        );
        just(Effect::Restart)
    }

    fn open_processes(&mut self) -> (r: Vec<Effect>)
        ensures
            (final(self)@, deeds(r@)) == process_next(old(self)@, Event::OpenProcesses),
    {
        reveal(process_next);
        self.procs_open = true;
        self.proc_note = None;
        self.proc_confirm = None;
        self.scanning = true;
        let mut rest = self.refresh_processes();
        let ghost asked = deeds(rest@);
        let mut effects = just(Effect::Scan(true));
        let ghost first = effects@;
        let ghost second = rest@;
        effects.append(&mut rest);
        assert(deeds(effects@) =~= deeds(first) + deeds(second));
        effects
    }

    fn close_processes(&mut self) -> (r: Vec<Effect>)
        ensures
            (final(self)@, deeds(r@)) == process_next(old(self)@, Event::CloseProcesses),
    {
        reveal(process_next);
        self.procs_open = false;
        self.scanning = false;
        self.asking = false;
        self.proc_remote = None;
        self.proc_confirm = None;
        self.proc_expanded = None;
        just(Effect::Scan(false))
    }

    fn process_host(&mut self, index: usize) -> (r: Vec<Effect>)
        ensures
            (final(self)@, deeds(r@)) == process_next(old(self)@, Event::ProcessHost(index)),
    {
        reveal(process_next);
        if index == self.proc_host {
            return nothing();
        }
        self.proc_host = index;
        self.proc_remote = None;
        self.proc_expanded = None;
        self.proc_confirm = None;
        self.proc_note = None;
        self.refresh_processes()
    }

    fn toggle_process(&mut self, pid: u32) -> (r: Vec<Effect>)
        ensures
            (final(self)@, deeds(r@)) == process_next(old(self)@, Event::ToggleProcess(pid)),
    {
        reveal(process_next);
        let shown = match self.proc_expanded {
            Some(open) => open == pid,
            None => false,
        };
        self.proc_expanded = if shown {
            None
        } else {
            Some(pid)
        };
        nothing()
    }

    fn confirm_signal(&mut self) -> (r: Vec<Effect>)
        ensures
            (final(self)@, deeds(r@)) == process_next(old(self)@, Event::ConfirmSignal),
    {
        reveal(process_next);
        match self.proc_confirm {
            Some((pid, signal)) => {
                self.proc_confirm = None;
                self.perform_signal(pid, signal)
            },
            None => nothing(),
        }
    }

    fn tick(&mut self, snapshot: SparkSnapshot, install: Option<InstallState>) -> (r: Vec<Effect>)
        ensures
            (final(self)@, deeds(r@)) == popup_next(old(self)@, Event::Tick {
                snapshot: snapshot@,
                install: progress_in(install),
            }),
    {
        reveal(popup_next);
        self.spark_state = snapshot;
        self.poll_installer(install)
    }

    fn popup_opened(&mut self, id: u64) -> (r: Vec<Effect>)
        ensures
            (final(self)@, deeds(r@)) == popup_next(old(self)@, Event::PopupOpened(id)),
    {
        reveal(popup_next);
        self.popup = Some(id);
        self.scanning = self.procs_open;
        just(Effect::Scan(self.procs_open))
    }

    fn toggle_spark(&mut self) -> (r: Vec<Effect>)
        ensures
            (final(self)@, deeds(r@)) == settings_next(old(self)@, Event::ToggleSpark),
    {
        reveal(settings_next);
        self.spark_open = !self.spark_open;
        nothing()
    }

    fn toggle_settings(&mut self) -> (r: Vec<Effect>)
        ensures
            (final(self)@, deeds(r@)) == settings_next(old(self)@, Event::ToggleSettings),
    {
        reveal(settings_next);
        self.settings_open = !self.settings_open;
        self.note = None;
        nothing()
    }

    fn host_draft(&mut self, value: String) -> (r: Vec<Effect>)
        ensures
            (final(self)@, deeds(r@)) == settings_next(old(self)@, Event::HostDraft(value@)),
    {
        reveal(settings_next);
        self.host_draft = value;
        nothing()
    }

    fn toggle_discovered(&mut self) -> (r: Vec<Effect>)
        ensures
            (final(self)@, deeds(r@)) == settings_next(old(self)@, Event::ToggleDiscovered),
    {
        reveal(settings_next);
        self.config.toggle_use_discovered();
        nothing()
    }

    fn toggle_shared_cache(&mut self) -> (r: Vec<Effect>)
        ensures
            (final(self)@, deeds(r@)) == settings_next(old(self)@, Event::ToggleSharedCache),
    {
        reveal(settings_next);
        self.config.toggle_shared_cache();
        nothing()
    }

    fn toggle_local_charts(&mut self) -> (r: Vec<Effect>)
        ensures
            (final(self)@, deeds(r@)) == settings_next(old(self)@, Event::ToggleLocalCharts),
    {
        reveal(settings_next);
        self.config.toggle_show_local_charts();
        nothing()
    }

    fn toggle_section_open(&mut self) -> (r: Vec<Effect>)
        ensures
            (final(self)@, deeds(r@)) == settings_next(old(self)@, Event::ToggleSectionOpen),
    {
        reveal(settings_next);
        self.config.toggle_spark_section_open();
        self.spark_open = self.config.spark_section_open;
        nothing()
    }

    fn install_host(&mut self, value: String) -> (r: Vec<Effect>)
        ensures
            (final(self)@, deeds(r@)) == installer_next(old(self)@, Event::InstallHost(value@)),
    {
        reveal(installer_next);
        self.install_host = value;
        nothing()
    }

    fn install_user(&mut self, value: String) -> (r: Vec<Effect>)
        ensures
            (final(self)@, deeds(r@)) == installer_next(old(self)@, Event::InstallUser(value@)),
    {
        reveal(installer_next);
        self.install_user = value;
        nothing()
    }

    fn install_password(&mut self, value: String) -> (r: Vec<Effect>)
        ensures
            (final(self)@, deeds(r@)) == installer_next(old(self)@, Event::InstallPassword(value@)),
    {
        reveal(installer_next);
        self.install_password = value;
        nothing()
    }

    fn install_port(&mut self, value: String) -> (r: Vec<Effect>)
        ensures
            (final(self)@, deeds(r@)) == installer_next(old(self)@, Event::InstallPort(value@)),
    {
        reveal(installer_next);
        self.install_port = value;
        nothing()
    }

    fn cancel_install(&mut self) -> (r: Vec<Effect>)
        ensures
            (final(self)@, deeds(r@)) == installer_next(old(self)@, Event::CancelInstall),
    {
        reveal(installer_next);
        if self.installing {
            just(Effect::CancelInstall)
        } else {
            nothing()
        }
    }

    fn open_models(&mut self, target: String, port: u16) -> (r: Vec<Effect>)
        ensures
            (final(self)@, deeds(r@)) == popup_next(old(self)@, Event::OpenModels(target@, port)),
    {
        reveal(popup_next);
        self.models_open = Some((target, port));
        self.loading = false;
        self.load_state = no_load();
        nothing()
    }

    fn close_models(&mut self) -> (r: Vec<Effect>)
        ensures
            (final(self)@, deeds(r@)) == popup_next(old(self)@, Event::CloseModels),
    {
        reveal(popup_next);
        self.models_open = None;
        self.loading = false;
        self.load_state = no_load();
        nothing()
    }

    fn restarted(&mut self, snapshot: SparkSnapshot) -> (r: Vec<Effect>)
        ensures
            (final(self)@, deeds(r@)) == settings_next(old(self)@, Event::Restarted(snapshot@)),
    {
        reveal(settings_next);
        self.spark_state = snapshot;
        nothing()
    }

    fn process_query(&mut self, value: String) -> (r: Vec<Effect>)
        ensures
            (final(self)@, deeds(r@)) == process_next(old(self)@, Event::ProcessQuery(value@)),
    {
        reveal(process_next);
        self.proc_query = value;
        nothing()
    }

    fn process_sort(&mut self, key: SortKey) -> (r: Vec<Effect>)
        ensures
            (final(self)@, deeds(r@)) == process_next(old(self)@, Event::ProcessSort(key)),
    {
        reveal(process_next);
        self.proc_sort = key;
        nothing()
    }

    fn ask_signal(&mut self, pid: u32, signal: i32) -> (r: Vec<Effect>)
        ensures
            (final(self)@, deeds(r@)) == process_next(old(self)@, Event::AskSignal(pid, signal)),
    {
        reveal(process_next);
        self.proc_confirm = Some((pid, signal));
        self.proc_note = None;
        nothing()
    }

    fn cancel_signal(&mut self) -> (r: Vec<Effect>)
        ensures
            (final(self)@, deeds(r@)) == process_next(old(self)@, Event::CancelSignal),
    {
        reveal(process_next);
        self.proc_confirm = None;
        nothing()
    }

    fn signal_sent(&mut self, result: Result<String, String>) -> (r: Vec<Effect>)
        ensures
            (final(self)@, deeds(r@)) == process_next(old(self)@, Event::SignalSent(link::result_of(result))),
    {
        reveal(process_next);
        self.proc_note = Some(result);
        nothing()
    }

    fn save_settings(&mut self) -> (r: Vec<Effect>)
        ensures
            (final(self)@, deeds(r@)) == settings_next(old(self)@, Event::SaveSettings),
    {
        reveal(settings_next);
        just(Effect::SaveSettings)
    }

    fn begin_install(&mut self) -> (r: Vec<Effect>)
        ensures
            (final(self)@, deeds(r@)) == installer_next(old(self)@, Event::StartInstall),
    {
        reveal(installer_next);
        self.start_install()
    }

    fn renew_processes(&mut self) -> (r: Vec<Effect>)
        ensures
            (final(self)@, deeds(r@)) == process_next(old(self)@, Event::RefreshProcesses),
    {
        reveal(process_next);
        self.refresh_processes()
    }

    /// Takes a message of the popup and of the clock; others do nothing.
    fn popup_message(&mut self, message: Message) -> (r: Vec<Effect>)
        ensures
            (final(self)@, deeds(r@)) == popup_next(old(self)@, message@),
    {
        match message {
            Message::Tick { snapshot, install } => self.tick(snapshot, install),
            Message::Polled { task, load, keep_popup } => self.rest_of_second(task, load, keep_popup),
            Message::TogglePopup => self.toggle_popup(),
            Message::PopupOpened(id) => self.popup_opened(id),
            Message::PopupClosed(id) => self.popup_closed(id),
            Message::ToggleRemote(target) => self.toggle_remote(target),
            Message::OpenModels(target, port) => self.open_models(target, port),
            Message::LoadModel(model) => self.load_model(model),
            Message::CloseModels => self.close_models(),
            _ => {
                reveal(popup_next);
                nothing()
            },
        }
    }

    /// Takes a message of the settings; others do nothing.
    #[verifier::rlimit(30)]
    fn settings_message(&mut self, message: Message) -> (r: Vec<Effect>)
        ensures
            (final(self)@, deeds(r@)) == settings_next(old(self)@, message@),
    {
        match message {
            Message::ToggleSpark => self.toggle_spark(),
            Message::ToggleSettings => self.toggle_settings(),
            Message::HostDraft(value) => self.host_draft(value),
            Message::AddHost => self.add_host(),
            Message::RemoveHost(index) => self.remove_host(index),
            Message::ToggleDiscovered => self.toggle_discovered(),
            Message::ToggleSharedCache => self.toggle_shared_cache(),
            Message::ToggleLocalCharts => self.toggle_local_charts(),
            Message::ToggleSectionOpen => self.toggle_section_open(),
            Message::SaveSettings => self.save_settings(),
            Message::SettingsSaved(result) => self.settings_saved(result),
            Message::NodeSaved(result) => self.node_saved(result),
            Message::Restarted(snapshot) => self.restarted(snapshot),
            _ => {
                reveal(settings_next);
                nothing()
            },
        }
    }

    /// Takes a message of the installer; others do nothing.
    fn installer_message(&mut self, message: Message) -> (r: Vec<Effect>)
        ensures
            (final(self)@, deeds(r@)) == installer_next(old(self)@, message@),
    {
        match message {
            Message::OpenInstaller => self.open_installer(),
            Message::InstallHost(value) => self.install_host(value),
            Message::InstallUser(value) => self.install_user(value),
            Message::InstallPassword(value) => self.install_password(value),
            Message::InstallPort(value) => self.install_port(value),
            Message::StartInstall => self.begin_install(),
            Message::AddHostOnly => self.add_host_only(),
            Message::CloseInstaller => self.close_installer(),
            Message::CancelInstall => self.cancel_install(),
            Message::UpdateAgent(target) => self.update_agent(target.as_str()),
            _ => {
                reveal(installer_next);
                nothing()
            },
        }
    }

    /// Takes a message of the process page; others do nothing.
    #[verifier::rlimit(30)]
    fn process_message(&mut self, message: Message) -> (r: Vec<Effect>)
        ensures
            (final(self)@, deeds(r@)) == process_next(old(self)@, message@),
    {
        match message {
            Message::OpenProcesses => self.open_processes(),
            Message::CloseProcesses => self.close_processes(),
            Message::ProcessQuery(value) => self.process_query(value),
            Message::ProcessSort(key) => self.process_sort(key),
            Message::ProcessHost(index) => self.process_host(index),
            Message::RefreshProcesses => self.renew_processes(),
            Message::ToggleProcess(pid) => self.toggle_process(pid),
            Message::AskSignal(pid, signal) => self.ask_signal(pid, signal),
            Message::CancelSignal => self.cancel_signal(),
            Message::ConfirmSignal => self.confirm_signal(),
            Message::SignalSent(result) => self.signal_sent(result),
            _ => {
                reveal(process_next);
                nothing()
            },
        }
    }

    /// Takes a message: the applet changes, and what is to be done outside is
    /// returned.
    pub fn update(&mut self, message: Message) -> (r: Vec<Effect>)
        ensures
            (final(self)@, deeds(r@)) == next(old(self)@, message@),
    {
        match message {
            Message::Tick { .. }
            | Message::Polled { .. }
            | Message::TogglePopup
            | Message::PopupOpened(_)
            | Message::PopupClosed(_)
            | Message::ToggleRemote(_)
            | Message::OpenModels(_, _)
            | Message::LoadModel(_)
            | Message::CloseModels => self.popup_message(message),
            Message::ToggleSpark
            | Message::ToggleSettings
            | Message::HostDraft(_)
            | Message::AddHost
            | Message::RemoveHost(_)
            | Message::ToggleDiscovered
            | Message::ToggleSharedCache
            | Message::ToggleLocalCharts
            | Message::ToggleSectionOpen
            | Message::SaveSettings
            | Message::SettingsSaved(_)
            | Message::NodeSaved(_)
            | Message::Restarted(_) => self.settings_message(message),
            Message::OpenInstaller
            | Message::InstallHost(_)
            | Message::InstallUser(_)
            | Message::InstallPassword(_)
            | Message::InstallPort(_)
            | Message::StartInstall
            | Message::AddHostOnly
            | Message::CloseInstaller
            | Message::CancelInstall
            | Message::UpdateAgent(_) => self.installer_message(message),
            _ => self.process_message(message),
        }
    }
}

// ---------------------------------------------------------------- laws

/// Whether something outside sends a signal.
pub open spec fn signals(deed: Deed) -> bool {
    deed is AskKill || deed is KillLocal
}

/// Whether none of the deeds sends a signal.
pub open spec fn harmless(deeds: Seq<Deed>) -> bool {
    forall|i: int| 0 <= i < deeds.len() ==> !signals(#[trigger] deeds[i])
}

proof fn lemma_seconds_are_harmless(
    s: Screen,
    task: Option<Task>,
    load: Option<Loading>,
    keep_popup: bool,
)
    ensures
        harmless(polled(s, task, load, keep_popup).1),
{
    let first = task_polled(s, task).1;
    assert(harmless(first));
    let all = polled(s, task, load, keep_popup).1;
    assert forall|i: int| 0 <= i < all.len() implies !signals(#[trigger] all[i]) by {
        if i < first.len() {
            assert(all[i] == first[i]);
        }
    }
}

proof fn lemma_popup_is_harmless(s: Screen, event: Event)
    ensures
        harmless(popup_next(s, event).1),
{
    reveal(popup_next);
    match event {
        Event::Polled { task, load, keep_popup } => {
            lemma_seconds_are_harmless(s, task, load, keep_popup);
        },
        Event::Tick { snapshot, install } => {
            let shown = Screen { spark_state: snapshot, ..s };
            assert(harmless(install_polled(shown, install).1));
        },
        _ => {},
    }
}

proof fn lemma_settings_are_harmless(s: Screen, event: Event)
    ensures
        harmless(settings_next(s, event).1),
{
    reveal(settings_next);
}

proof fn lemma_installer_is_harmless(s: Screen, event: Event)
    ensures
        harmless(installer_next(s, event).1),
{
    reveal(installer_next);
}

proof fn lemma_processes_are_harmless(s: Screen, event: Event)
    requires
        !(event is ConfirmSignal),
    ensures
        harmless(process_next(s, event).1),
{
    reveal(process_next);
}

proof fn lemma_no_signals(s: Screen, event: Event)
    ensures
        !(event is ConfirmSignal) ==> harmless(next(s, event).1),
{
    if !(event is ConfirmSignal) {
        lemma_popup_is_harmless(s, event);
        lemma_settings_are_harmless(s, event);
        lemma_installer_is_harmless(s, event);
        lemma_processes_are_harmless(s, event);
    }
}

/// No signal is sent without a confirmation, and a confirmation sends exactly
/// the signal that was asked about, to the process that was asked about, once.
pub proof fn signals_are_confirmed(s: Screen, event: Event)
    ensures
        forall|i: int|
            0 <= i < next(s, event).1.len() && signals(#[trigger] next(s, event).1[i])
                ==> event is ConfirmSignal && s.proc_confirm is Some,
        event is ConfirmSignal ==> next(s, event).0.proc_confirm is None && (match s.proc_confirm {
            Some((pid, signal)) => next(s, event).1 == seq![
                if is_local(s) {
                    Deed::KillLocal { pid, signal }
                } else {
                    Deed::AskKill { target: chosen(s)->0, token: s.config.token, pid, signal }
                },
            ],
            None => next(s, event).1.len() == 0,
        }),
{
    lemma_no_signals(s, event);
    reveal(process_next);
}

/// A popup that was closed, from the panel or by itself, neither scans nor asks.
/// Closing by itself also forgets the signal that waited for confirmation.
pub proof fn closed_popups_rest(s: Screen, id: u64)
    requires
        s.popup == Some(id),
    ensures
        next(s, Event::PopupClosed(id)) == (
            (Screen { proc_confirm: None, ..at_rest(s) }),
            seq![Deed::Scan(false)],
        ),
        next(s, Event::TogglePopup) == (
            at_rest(s),
            seq![Deed::ClosePopup(id), Deed::Scan(false)],
        ),
{
    reveal(popup_next);
}

/// While the popup is closed, the passing seconds neither scan nor ask.
pub proof fn closed_popups_stay_at_rest(s: Screen, event: Event)
    requires
        s == at_rest(s),
        event is Tick || event is Polled,
    ensures
        next(s, event).0 == at_rest(next(s, event).0),
        forall|i: int|
            0 <= i < next(s, event).1.len() ==> {
                let deed = #[trigger] next(s, event).1[i];
                !(deed is Scan) && !(deed is AskProcesses) && !(deed is AskKill)
            },
{
    reveal(popup_next);
}

/// The password goes with the request and leaves the dialog.
pub proof fn passwords_leave_the_dialog(s: Screen)
    requires
        !s.installing || ended(s.install_state),
    ensures
        ({
            let (after, done) = next(s, Event::StartInstall);
            &&& after.install_password == Seq::<char>::empty()
            &&& done.len() == 1
            &&& done[0] is Install
            &&& done[0]->Install_0.password == s.install_password
        }),
{
    reveal(installer_next);
}

/// Whether no two texts of a list are the same up to their case.
pub open spec fn distinct(list: Seq<Seq<char>>) -> bool {
    forall|i: int, j: int|
        0 <= i < j < list.len() ==> text::ascii_lower(#[trigger] list[i]) != text::ascii_lower(
            #[trigger] list[j],
        )
}

/// Adding a typed host never makes the node list name a node twice.
pub proof fn hosts_are_added_once(s: Screen)
    requires
        distinct(s.config.targets),
    ensures
        distinct(next(s, Event::AddHost).0.config.targets),
{
    reveal(settings_next);
    let before = s.config.targets;
    let after = next(s, Event::AddHost).0.config.targets;
    assert forall|i: int, j: int| 0 <= i < j < after.len() implies text::ascii_lower(
        #[trigger] after[i],
    ) != text::ascii_lower(#[trigger] after[j]) by {
        assert(i < before.len() && after[i] == before[i]);
        if j < before.len() {
            assert(after[j] == before[j]);
        }
    }
}

/// A finished installation is acted upon once: seeing it again changes neither
/// the node list nor anything outside.
pub proof fn nodes_are_adopted_once(
    s: Screen,
    first: Snapshot,
    second: Snapshot,
    state: Progress,
)
    requires
        ended(state),
    ensures
        ({
            let seen = next(s, Event::Tick { snapshot: first, install: Some(state) }).0;
            let (again, done) = next(
                seen,
                Event::Tick { snapshot: second, install: Some(state) },
            );
            &&& again.config == seen.config
            &&& done.len() == 0
        }),
{
    reveal(popup_next);
}

proof fn lemma_place_of_last(list: Seq<Seq<char>>, item: Seq<char>)
    requires
        place_of(list, item) is None,
    ensures
        place_of(list.push(item), item) == Some(list.len() as int),
    decreases list.len(),
{
    let longer = list.push(item);
    if list.len() > 0 {
        lemma_place_of_last(list.drop_first(), item);
        assert(longer.drop_first() =~= list.drop_first().push(item));
    }
}

/// Unfolding a node and folding it again leaves everything as it was.
pub proof fn details_fold_back(s: Screen, target: Seq<char>)
    requires
        place_of(s.expanded_remote, target) is None,
    ensures
        ({
            let open = next(s, Event::ToggleRemote(target)).0;
            &&& open.expanded_remote.last() == target
            &&& next(open, Event::ToggleRemote(target)).0 == s
        }),
{
    reveal(popup_next);
    lemma_place_of_last(s.expanded_remote, target);
    assert(s.expanded_remote.push(target).remove(s.expanded_remote.len() as int)
        =~= s.expanded_remote);
}

/// Looking at another host forgets everything that was shown of the last one.
pub proof fn hosts_do_not_mix(s: Screen, index: usize)
    requires
        index != s.proc_host,
    ensures
        ({
            let after = next(s, Event::ProcessHost(index)).0;
            &&& after.proc_host == index
            &&& after.proc_remote is None
            &&& after.proc_confirm is None
            &&& after.proc_expanded is None
            &&& after.proc_note is None
        }),
{
    reveal(process_next);
}

/// A switch turns one setting and nothing else, and nothing is done outside.
#[verifier::rlimit(40)]
pub proof fn switches_turn_one_setting(s: Screen)
    ensures
        ({
            let c = s.config;
            &&& next(s, Event::ToggleSpark) == quiet(Screen { spark_open: !s.spark_open, ..s })
            &&& next(s, Event::ToggleDiscovered) == quiet(
                Screen { config: Config { use_discovered: !c.use_discovered, ..c }, ..s },
            )
            &&& next(s, Event::ToggleSharedCache) == quiet(
                Screen { config: Config { shared_cache: !c.shared_cache, ..c }, ..s },
            )
            &&& next(s, Event::ToggleLocalCharts) == quiet(
                Screen { config: Config { show_local_charts: !c.show_local_charts, ..c }, ..s },
            )
            &&& ({
                let after = next(s, Event::ToggleSectionOpen).0;
                &&& after.config.spark_section_open == !c.spark_section_open
                &&& after.spark_open == after.config.spark_section_open
            })
            &&& ({
                let after = next(s, Event::ToggleSettings).0;
                &&& after.settings_open == !s.settings_open
                &&& after.note is None
                &&& after.config == c
            })
        }),
{
    reveal(settings_next);
}

/// A switch that is turned twice is where it was.
pub proof fn switches_turn_back(s: Screen)
    ensures
        next(next(s, Event::ToggleDiscovered).0, Event::ToggleDiscovered).0.config == s.config,
        next(next(s, Event::ToggleSharedCache).0, Event::ToggleSharedCache).0.config == s.config,
        next(next(s, Event::ToggleLocalCharts).0, Event::ToggleLocalCharts).0.config == s.config,
{
    switches_turn_one_setting(s);
    switches_turn_one_setting(next(s, Event::ToggleDiscovered).0);
    switches_turn_one_setting(next(s, Event::ToggleSharedCache).0);
    switches_turn_one_setting(next(s, Event::ToggleLocalCharts).0);
}

/// What is typed is kept as it is, each in its own field.
pub proof fn typed_texts_are_kept(s: Screen, value: Seq<char>)
    ensures
        next(s, Event::HostDraft(value)) == quiet(Screen { host_draft: value, ..s }),
        next(s, Event::InstallHost(value)) == quiet(Screen { install_host: value, ..s }),
        next(s, Event::InstallUser(value)) == quiet(Screen { install_user: value, ..s }),
        next(s, Event::InstallPassword(value)) == quiet(Screen { install_password: value, ..s }),
        next(s, Event::InstallPort(value)) == quiet(Screen { install_port: value, ..s }),
        next(s, Event::ProcessQuery(value)) == quiet(Screen { proc_query: value, ..s }),
{
    reveal(settings_next);
    reveal(installer_next);
    reveal(process_next);
}

/// A typed host that is new joins the end of the list, without surrounding
/// whitespace, and leaves the field; an empty or a known one changes nothing.
pub proof fn new_hosts_join_the_list(s: Screen)
    ensures
        ({
            let host = text::trimmed(s.host_draft);
            let (after, done) = next(s, Event::AddHost);
            &&& done.len() == 0
            &&& host.len() == 0 ==> after == s
            &&& (exists|i: int|
                0 <= i < s.config.targets.len() && text::ascii_lower(
                    #[trigger] s.config.targets[i],
                ) == text::ascii_lower(host)) ==> after == s
            &&& host.len() > 0 && (forall|i: int|
                0 <= i < s.config.targets.len() ==> text::ascii_lower(
                    #[trigger] s.config.targets[i],
                ) != text::ascii_lower(host)) ==> after.config.targets == s.config.targets.push(
                host,
            ) && after.host_draft.len() == 0 && after.config.token == s.config.token
        }),
{
    reveal(settings_next);
}

/// A removed host leaves the list, and the others keep their order.
pub proof fn removed_hosts_leave_the_list(s: Screen, index: usize)
    ensures
        ({
            let (after, done) = next(s, Event::RemoveHost(index));
            let before = s.config.targets;
            &&& done.len() == 0
            &&& index >= before.len() ==> after == s
            &&& index < before.len() ==> after.config.targets == before.take(index as int)
                + before.skip(index + 1)
        }),
{
    reveal(settings_next);
    let before = s.config.targets;
    if index < before.len() {
        assert(before.remove(index as int) =~= before.take(index as int) + before.skip(index + 1));
    }
}

/// Saving writes the configuration; once it is written the connections start
/// again, and the page tells where it went or what went wrong.
pub proof fn saved_settings_take_effect(s: Screen, path: Seq<char>, error: Seq<char>)
    ensures
        next(s, Event::SaveSettings) == (s, seq![Deed::SaveSettings]),
        next(s, Event::SettingsSaved(Ok(path))) == (
            (Screen { note: Some("Gespeichert in "@ + path), ..s }),
            seq![Deed::Restart],
        ),
        next(s, Event::SettingsSaved(Err(error))) == (
            (Screen { note: Some("Speichern fehlgeschlagen: "@ + error), ..s }),
            Seq::<Deed>::empty(),
        ),
        next(s, Event::NodeSaved(Ok(path))) == (
            (Screen { note: Some("Knoten aufgenommen, gespeichert in "@ + path), ..s }),
            seq![Deed::Restart],
        ),
        next(s, Event::NodeSaved(Err(error))).1 == seq![Deed::Restart],
{
    reveal(settings_next);
}

/// The request for an installation is what the dialog says, without surrounding
/// whitespace; without a usable port it is port 22.
pub proof fn installations_follow_the_dialog(s: Screen)
    requires
        !s.installing || s.install_state.status is Done || s.install_state.status is Failed,
    ensures
        ({
            let done = next(s, Event::StartInstall).1;
            &&& done.len() == 1
            &&& done[0] is Install
            &&& done[0]->Install_0.host == text::trimmed(s.install_host)
            &&& done[0]->Install_0.user == text::trimmed(s.install_user)
            &&& done[0]->Install_0.password == s.install_password
            &&& match text::unsigned_literal(text::trimmed(s.install_port), 10, 0xffff) {
                Some(port) => done[0]->Install_0.port == port as u16,
                None => done[0]->Install_0.port == 22,
            }
        }),
        next(s, Event::StartInstall).0.installing,
{
    reveal(installer_next);
}

/// While an installation runs, no other begins.
pub proof fn one_installation_at_a_time(s: Screen)
    requires
        s.installing,
        s.install_state.status is Idle || s.install_state.status is Running,
    ensures
        next(s, Event::StartInstall) == quiet(s),
        next(s, Event::CancelInstall) == (s, seq![Deed::CancelInstall]),
{
    reveal(installer_next);
}

/// A node on which the installation succeeded joins the list with the port of
/// the agent, and the list is saved; after a failure nothing joins.
pub proof fn installed_nodes_join_the_list(s: Screen, snapshot: Snapshot, state: Progress)
    requires
        s.installing,
        !s.install_handled,
    ensures
        ({
            let host = text::trimmed(s.install_host);
            let (after, done) = next(s, Event::Tick { snapshot, install: Some(state) });
            &&& after.spark_state == snapshot
            &&& after.install_state == state
            &&& state.status is Done && host.len() > 0 && !s.config.targets.contains(host)
                ==> after.config.targets == s.config.targets.push(host + ":8787"@) && done == seq![
                Deed::SaveNode,
            ]
            &&& !(state.status is Done) || host.len() == 0 || s.config.targets.contains(host)
                ==> after.config == s.config && done.len() == 0
        }),
{
    reveal(popup_next);
}

/// Every second shows the newest snapshot.
pub proof fn snapshots_are_shown(s: Screen, snapshot: Snapshot)
    ensures
        next(s, Event::Tick { snapshot, install: None }) == quiet(
            Screen { spark_state: snapshot, ..s },
        ),
        next(s, Event::Restarted(snapshot)) == quiet(Screen { spark_state: snapshot, ..s }),
{
    reveal(popup_next);
    reveal(settings_next);
}

/// An update opens the dialog for the host of the target, without its port, and
/// leaves the process page.
pub proof fn updates_name_the_host(s: Screen, host: Seq<char>, port: Seq<char>)
    requires
        host.len() > 0,
        !host.contains(':'),
    ensures
        ({
            let (after, done) = next(s, Event::UpdateAgent(host.push(':') + port));
            &&& after.install_host == host
            &&& after.install_is_update
            &&& !after.installing
            &&& !after.settings_open
            &&& !after.procs_open
            &&& !after.scanning
            &&& done == seq![Deed::Scan(false)]
        }),
        next(s, Event::UpdateAgent(host)).0.install_host == host,
{
    reveal(installer_next);
    text::pieces_stand_between_the_marks(host, port, ':');
}

/// The process list is that of the selected host: the first entry, and a node
/// that is this machine, is scanned; any other node is asked, with the token.
pub proof fn the_selected_host_is_asked(s: Screen)
    ensures
        ({
            let (after, done) = next(s, Event::RefreshProcesses);
            let k = s.proc_host - 1;
            let local = s.proc_host == 0 || k >= s.config.targets.len() || (exists|i: int|
                0 <= i < s.spark_state.agents.len() && (
                #[trigger] s.spark_state.agents[i]).label == s.config.targets[k]
                    && s.spark_state.agents[i].host == s.hostname);
            &&& local ==> done == seq![Deed::Scan(true)] && after.scanning
            &&& !local ==> done == seq![
                Deed::AskProcesses { target: s.config.targets[k], token: s.config.token },
            ] && after.asking
        }),
{
    reveal(process_next);
}

/// A signal waits for its confirmation; a cancelled one is forgotten.
pub proof fn signals_wait_for_confirmation(s: Screen, pid: u32, signal: i32)
    ensures
        ({
            let (after, done) = next(s, Event::AskSignal(pid, signal));
            &&& after.proc_confirm == Some((pid, signal))
            &&& after.proc_note is None
            &&& done.len() == 0
        }),
        next(s, Event::CancelSignal) == quiet(Screen { proc_confirm: None, ..s }),
        next(s, Event::ConfirmSignal).0.proc_confirm is None,
        s.proc_confirm is None ==> next(s, Event::ConfirmSignal).1.len() == 0,
        s.proc_confirm == Some((pid, signal)) && is_local(s) ==> next(s, Event::ConfirmSignal).1
            == seq![Deed::KillLocal { pid, signal }],
{
    reveal(process_next);
}

/// The process page opens with a scan and a fresh list, and closes with the end
/// of the scan; sorting and unfolding change nothing else.
pub proof fn the_process_page_opens_and_closes(s: Screen, key: SortKey, pid: u32)
    ensures
        next(s, Event::OpenProcesses).0.procs_open,
        next(s, Event::OpenProcesses).0.scanning,
        next(s, Event::OpenProcesses).0.proc_confirm is None,
        next(s, Event::OpenProcesses).1.len() == 2,
        next(s, Event::OpenProcesses).1[0] == Deed::Scan(true),
        ({
            let (after, done) = next(s, Event::CloseProcesses);
            &&& !after.procs_open && !after.scanning && !after.asking
            &&& after.proc_remote is None && after.proc_confirm is None
            &&& done == seq![Deed::Scan(false)]
        }),
        next(s, Event::ProcessSort(key)) == quiet(Screen { proc_sort: key, ..s }),
        s.proc_expanded != Some(pid) ==> next(s, Event::ToggleProcess(pid)) == quiet(
            Screen { proc_expanded: Some(pid), ..s },
        ),
        s.proc_expanded == Some(pid) ==> next(s, Event::ToggleProcess(pid)) == quiet(
            Screen { proc_expanded: None, ..s },
        ),
        next(s, Event::ProcessHost(s.proc_host)) == quiet(s),
{
    reveal(process_next);
}

/// A finished request brings its list and its answer, and a delivered signal a
/// fresh list; one that still runs changes nothing.
pub proof fn finished_requests_are_shown(s: Screen, list: Listing, answer: Result<Seq<char>, Seq<char>>)
    requires
        s.asking,
        s.popup is Some,
    ensures
        ({
            let task = Task { running: false, list: Some(list), kill: None };
            let (after, done) = next(
                s,
                Event::Polled { task: Some(task), load: None, keep_popup: false },
            );
            &&& after.proc_remote == Some(list)
            &&& !after.asking
            &&& done.len() == 0
            &&& list.error matches Some(e) ==> after.proc_note == Some(
                Err::<Seq<char>, Seq<char>>(e),
            )
            &&& list.error is None ==> after.proc_note == s.proc_note
        }),
        ({
            let task = Task { running: false, list: None, kill: Some(answer) };
            let (after, done) = next(
                s,
                Event::Polled { task: Some(task), load: None, keep_popup: false },
            );
            &&& after.proc_note == Some(answer)
            &&& answer is Err ==> done.len() == 0 && !after.asking
            &&& answer is Ok ==> done == next(s, Event::RefreshProcesses).1
        }),
        next(
            s,
            Event::Polled {
                task: Some(Task { running: true, list: Some(list), kill: Some(answer) }),
                load: None,
                keep_popup: false,
            },
        ) == quiet(s),
{
    reveal(popup_next);
    reveal(process_next);
}

/// A model is loaded into the server whose list is open, and into none where no
/// list is.
pub proof fn models_are_loaded_where_they_are_listed(s: Screen, target: Seq<char>, port: u16, model: Seq<char>)
    ensures
        ({
            let (open, done) = next(s, Event::OpenModels(target, port));
            &&& open.models_open == Some((target, port))
            &&& !open.loading
            &&& done.len() == 0
            &&& next(open, Event::LoadModel(model)).1 == seq![Deed::Load { target, port, model }]
            &&& next(open, Event::LoadModel(model)).0.loading
        }),
        s.models_open is None ==> next(s, Event::LoadModel(model)) == quiet(s),
        next(s, Event::CloseModels).0.models_open is None,
        !next(s, Event::CloseModels).0.loading,
{
    reveal(popup_next);
}

/// The popup opens and closes; the process page is scanned while it is visible.
pub proof fn popups_scan_while_they_are_open(s: Screen, id: u64)
    ensures
        s.popup is None ==> next(s, Event::TogglePopup) == (s, seq![Deed::OpenPopup]),
        next(s, Event::PopupOpened(id)).0.popup == Some(id),
        next(s, Event::PopupOpened(id)).0.scanning == s.procs_open,
        next(s, Event::PopupOpened(id)).1 == seq![Deed::Scan(s.procs_open)],
        s.popup != Some(id) ==> next(s, Event::PopupClosed(id)) == quiet(s),
{
    reveal(popup_next);
}

/// The header names the selected host, and says which one is this machine.
pub proof fn headers_name_the_host(s: Screen)
    ensures
        s.proc_host == 0 ==> host_label(s) == s.hostname + " (lokal)"@,
        s.proc_host == 0 ==> is_local(s) && agent_ready(s),
        chosen(s) matches Some(target) ==> {
            &&& target == s.config.targets[s.proc_host - 1]
            &&& spark::first_where(s.spark_state.agents, |a: Agent| a.label == target) is None
                && !is_local(s) ==> host_label(s) == target
            &&& spark::first_where(s.spark_state.agents, |a: Agent| a.label == target) matches Some(
                agent,
            ) ==> (!is_local(s) ==> host_label(s) == spark::display_name_of(agent))
                && (is_local(s) ==> host_label(s) == spark::display_name_of(agent) + " (lokal)"@)
                && agent_ready(s) == procs::knows_processes(agent.version)
        },
{
}

/// The rows shown are those of the selected host.
pub proof fn rows_are_those_of_the_host(s: Screen, local: Listing)
    ensures
        is_local(s) ==> current_listing(s, local) == local,
        !is_local(s) ==> (match s.proc_remote {
            Some(list) => current_listing(s, local) == list,
            None => current_listing(s, local).entries.len() == 0,
        }),
{
}

/// The installer opens for the typed host, empty and with no installation shown;
/// it closes to the settings and forgets the host.
pub proof fn the_installer_opens_and_closes(s: Screen)
    ensures
        ({
            let (open, done) = next(s, Event::OpenInstaller);
            let draft = text::trimmed(s.host_draft);
            &&& done.len() == 0
            &&& draft.len() > 0 ==> open.install_host == draft
            &&& draft.len() == 0 ==> open.install_host == s.install_host
            &&& !open.installing && !open.install_is_update && !open.settings_open
            &&& !open.install_handled
            &&& open.install_state.status is Idle && open.install_state.lines.len() == 0
        }),
        ({
            let (closed, done) = next(s, Event::CloseInstaller);
            &&& done.len() == 0
            &&& closed.install_host.len() == 0 && closed.host_draft.len() == 0
            &&& !closed.installing && !closed.install_is_update && closed.settings_open
        }),
{
    reveal(installer_next);
}

/// A host can be added without an installation: it joins the list once, as it was
/// typed, and the settings open.
pub proof fn hosts_are_added_without_an_installation(s: Screen)
    ensures
        ({
            let host = text::trimmed(s.install_host);
            let (after, done) = next(s, Event::AddHostOnly);
            &&& done.len() == 0
            &&& after.settings_open && !after.installing && after.install_host.len() == 0
            &&& host.len() > 0 && !s.config.targets.contains(host) ==> after.config.targets
                == s.config.targets.push(host)
            &&& host.len() == 0 || s.config.targets.contains(host) ==> after.config == s.config
        }),
{
    reveal(installer_next);
}

/// A load that is shown follows its progress, and a popup that is kept open opens
/// again.
pub proof fn loads_are_followed(s: Screen, load: Loading)
    ensures
        ({
            let (after, done) = next(
                s,
                Event::Polled { task: None, load: Some(load), keep_popup: false },
            );
            &&& done.len() == 0
            &&& s.loading ==> after == (Screen { load_state: load, ..s })
            &&& !s.loading ==> after == s
        }),
        ({
            let (after, done) = next(
                s,
                Event::Polled { task: None, load: None, keep_popup: true },
            );
            &&& after == s
            &&& s.popup is None ==> done == seq![Deed::OpenPopup]
            &&& s.popup is Some ==> done.len() == 0
        }),
        next(s, Event::CancelInstall) == (s, if s.installing {
            seq![Deed::CancelInstall]
        } else {
            Seq::empty()
        }),
{
    reveal(popup_next);
    reveal(installer_next);
    let (after, done) = next(s, Event::Polled { task: None, load: None, keep_popup: true });
    if s.popup is None {
        assert(done =~= seq![Deed::OpenPopup]);
    }
}

/// The first row with a number is the row of that process.
pub proof fn rows_are_found_by_number(rows: Seq<Process>, k: int)
    requires
        0 <= k < rows.len(),
        forall|j: int| 0 <= j < k ==> (#[trigger] rows[j]).pid != rows[k].pid,
    ensures
        row_of(rows, rows[k].pid) == Some(rows[k]),
    decreases k,
{
    if k > 0 {
        let rest = rows.drop_first();
        assert(rows[0].pid != rows[k].pid);
        assert forall|j: int| 0 <= j < k - 1 implies (#[trigger] rest[j]).pid != rest[k
            - 1].pid by {
            assert(rest[j] == rows[j + 1]);
        }
        rows_are_found_by_number(rest, k - 1);
    }
}

} // verus!
