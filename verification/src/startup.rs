//! How the applet starts: its arguments, the development switches, and the
//! state it begins with.
use crate::applet;
use crate::applet::{Deed, Effect, Screen, Sysmon};
use crate::config;
use crate::config::{Config, SparkConfig};
use crate::install::{InstallRequest, InstallState, Wish};
use crate::link::LoadState;
use crate::procs::SortKey;
use crate::spark::{Snapshot, SparkSnapshot};
use crate::text;
use vstd::prelude::*;

verus! {

// ---------------------------------------------------------------- arguments

/// What the arguments ask to be installed, and the file that holds the password.
#[derive(Debug)]
pub struct InstallOrder {
    pub request: InstallRequest,
    pub password_file: Option<String>,
}

/// An order as characters, while the arguments are read.
pub struct Order {
    pub wish: Wish,
    pub password_file: Option<Seq<char>>,
    pub found: bool,
}

/// The argument that follows, if there is one.
pub open spec fn follower(items: Seq<Seq<char>>) -> Option<Seq<char>> {
    if items.len() > 1 {
        Some(items[1])
    } else {
        None
    }
}

/// What stands after an argument and the one that follows it.
pub open spec fn beyond(items: Seq<Seq<char>>) -> Seq<Seq<char>> {
    if items.len() > 1 {
        items.skip(2)
    } else {
        Seq::empty()
    }
}

/// The text, or nothing.
pub open spec fn or_empty(s: Option<Seq<char>>) -> Seq<char> {
    match s {
        Some(s) => s,
        None => Seq::empty(),
    }
}

/// The order after the arguments that remain.
pub open spec fn ordered(items: Seq<Seq<char>>, order: Order) -> Order
    decreases items.len(),
{
    if items.len() == 0 {
        order
    } else if items[0] == "--install-agent"@ {
        ordered(
            beyond(items),
            Order {
                wish: Wish { host: or_empty(follower(items)), ..order.wish },
                found: true,
                ..order
            },
        )
    } else if items[0] == "--install-user"@ {
        ordered(
            beyond(items),
            Order { wish: Wish { user: or_empty(follower(items)), ..order.wish }, ..order },
        )
    } else if items[0] == "--install-port"@ {
        ordered(
            beyond(items),
            Order {
                wish: Wish {
                    port: match text::unsigned_literal(
                        or_empty(follower(items)),
                        10,
                        u16::MAX as int,
                    ) {
                        Some(port) => port as u16,
                        None => 22,
                    },
                    ..order.wish
                },
                ..order
            },
        )
    } else if items[0] == "--install-password-file"@ {
        ordered(beyond(items), Order { password_file: follower(items), ..order })
    } else {
        ordered(items.skip(1), order)
    }
}

/// The order before any argument: port 22, as this user.
pub open spec fn no_order(user: Option<Seq<char>>) -> Order {
    Order {
        wish: Wish {
            host: Seq::empty(),
            user: match user {
                Some(user) => user,
                None => "root"@,
            },
            password: Seq::empty(),
            port: 22,
        },
        password_file: None,
        found: false,
    }
}

fn copy_or_empty(items: &Vec<String>, i: usize) -> (r: String)
    ensures
        r@ == (if i < items@.len() {
            items@[i as int]@
        } else {
            Seq::empty()
        }),
{
    if i < items.len() {
        text::copy(items[i].as_str())
    } else {
        let r = String::new();
        assert(r@ =~= Seq::empty());
        r
    }
}

/// `--install-agent HOST` asks for an installation without the UI. `user` is the
/// name of the current user, where it is known.
pub fn install_request_from_args(items: &Vec<String>, user: Option<&str>) -> (r: Option<
    InstallOrder,
>)
    ensures
        ({
            let order = ordered(
                text::views(items@),
                no_order(
                    match user {
                        Some(user) => Some(user@),
                        None => None,
                    },
                ),
            );
            match r {
                Some(o) => order.found && o.request@ == order.wish && applet::chars_in(
                    o.password_file,
                ) == order.password_file,
                None => !order.found,
            }
        }),
{
    let ghost all = text::views(items@);
    let mut request = InstallRequest::default();
    request.port = 22;
    request.user = match user {
        Some(user) => text::copy(user),
        None => text::copy("root"),
    };
    let mut password_file: Option<String> = None;
    let mut found = false;
    let n: usize = items.len();
    let mut i: usize = 0;
    let ghost user_chars = match user {
        Some(user) => Some(user@),
        None => None,
    };
    let ghost goal = ordered(all, no_order(user_chars));
    assert(all.skip(0) =~= all);
    while i < n
        invariant
            i <= n == items@.len(),
            all == text::views(items@),
            goal == ordered(
                all.skip(i as int),
                Order {
                    wish: request@,
                    password_file: applet::chars_in(password_file),
                    found,
                },
            ),
        decreases n - i,
    {
        let ghost rest = all.skip(i as int);
        let item = items[i].as_str();
        assert(rest[0] == items@[i as int]@);
        proof {
            if i + 1 < n {
                assert(rest[1] == items@[i + 1]@);
                assert(rest.skip(2) =~= all.skip(i + 2));
            } else {
                assert(beyond(rest) =~= all.skip(n as int));
            }
            assert(rest.skip(1) =~= all.skip(i + 1));
        }
        let next: usize = if n - i > 1 {
            i + 2
        } else {
            n
        };
        if text::same(item, "--install-agent") {
            request.host = copy_or_empty(items, i + 1);
            found = true;
            i = next;
        } else if text::same(item, "--install-user") {
            request.user = copy_or_empty(items, i + 1);
            i = next;
        } else if text::same(item, "--install-port") {
            let value = copy_or_empty(items, i + 1);
            request.port = match text::parse_u16(value.as_str()) {
                Some(port) => port,
                None => 22,
            };
            i = next;
        } else if text::same(item, "--install-password-file") {
            password_file = if n - i > 1 {
                Some(text::copy(items[i + 1].as_str()))
            } else {
                None
            };
            i = next;
        } else {
            i += 1;
        }
    }
    assert(all.skip(n as int) =~= Seq::empty());
    if found {
        Some(InstallOrder { request, password_file })
    } else {
        None
    }
}

impl InstallOrder {
    /// The request with the password that the file holds, where it could be read.
    pub fn with_password(self, content: Option<&str>) -> (r: InstallRequest)
        ensures
            r@ == (Wish {
                password: match content {
                    Some(content) => text::trimmed_end(content@),
                    None => Seq::empty(),
                },
                ..self.request@
            }),
    {
        let mut request = self.request;
        request.password = match content {
            Some(content) => text::trim_end(content),
            None => {
                let r = String::new();
                assert(r@ =~= Seq::empty());
                r
            },
        };
        request
    }
}

// ---------------------------------------------------------------- switches

/// `PID:SIGNAL`.
pub open spec fn pid_signal(value: Seq<char>) -> Option<(u32, i32)> {
    match text::cut_first(value, ':') {
        Some((pid, signal)) => match (
            text::unsigned_literal(text::trimmed(pid), 10, u32::MAX as int),
            text::signed_literal(text::trimmed(signal)),
        ) {
            (Some(pid), Some(signal)) => Some((pid as u32, signal as i32)),
            _ => None,
        },
        None => None,
    }
}

/// Parses `PID:SIGNAL`, used by the development switches of the process page.
pub fn parse_pid_signal(value: &str) -> (r: Option<(u32, i32)>)
    ensures
        r == pid_signal(value@),
{
    match text::split_once(value, ':') {
        Some((pid, signal)) => {
            let pid = text::trim(pid.as_str());
            let signal = text::trim(signal.as_str());
            match (text::parse_u32(pid.as_str()), text::parse_i32(signal.as_str())) {
                (Some(pid), Some(signal)) => Some((pid, signal)),
                _ => None,
            }
        },
        None => None,
    }
}

/// `TARGET:PORT`; the target may hold a port of its own.
pub open spec fn model_place(value: Seq<char>) -> Option<(Seq<char>, u16)> {
    match text::cut_last(value, ':') {
        Some((target, port)) => match text::unsigned_literal(port, 10, u16::MAX as int) {
            Some(port) => Some((target, port as u16)),
            None => None,
        },
        None => None,
    }
}

/// Parses `TARGET:PORT`.
pub fn parse_model_place(value: &str) -> (r: Option<(String, u16)>)
    ensures
        match r {
            Some((target, port)) => model_place(value@) == Some((target@, port)),
            None => model_place(value@) is None,
        },
{
    match text::rsplit_once(value, ':') {
        Some((target, port)) => match text::parse_u16(port.as_str()) {
            Some(port) => Some((target, port)),
            None => None,
        },
        None => None,
    }
}

/// Hostname of this machine: the kernel's, or that of the environment, or a
/// word for it.
pub open spec fn hostname_of(kernel: Option<Seq<char>>, environment: Option<Seq<char>>) -> Seq<
    char,
> {
    match kernel {
        Some(name) if text::trimmed(name).len() > 0 => text::trimmed(name),
        _ => match environment {
            Some(name) => name,
            None => "lokal"@,
        },
    }
}

/// Hostname of this machine, used for the heading of its values.
pub fn local_hostname(kernel: Option<&str>, environment: Option<&str>) -> (r: String)
    ensures
        r@ == hostname_of(borrowed(kernel), borrowed(environment)),
{
    if let Some(name) = kernel {
        let name = text::trim(name);
        if !text::is_empty(name.as_str()) {
            return name;
        }
    }
    match environment {
        Some(name) => text::copy(name),
        None => text::copy("lokal"),
    }
}

/// An optional text as characters.
pub open spec fn borrowed(s: Option<&str>) -> Option<Seq<char>> {
    match s {
        Some(s) => Some(s@),
        None => None,
    }
}

/// The environment that the applet looks at when it starts.
#[derive(Debug)]
pub struct Switches {
    /// Show the settings page.
    pub open_settings: bool,
    /// Show the installer dialog for this host.
    pub open_install: Option<String>,
    /// The name of the current user.
    pub user: Option<String>,
    /// Expand these nodes, separated by commas.
    pub expand_remote: Option<String>,
    /// Show the models of this engine, `TARGET:PORT`.
    pub open_models: Option<String>,
    /// Show the process page.
    pub open_procs: bool,
    /// Search for this on the process page.
    pub proc_query: Option<String>,
    /// Select this host on the process page.
    pub proc_host: Option<String>,
    /// Ask for confirmation of this signal, `PID:SIGNAL`.
    pub proc_confirm: Option<String>,
    /// Send this signal, `PID:SIGNAL`.
    pub proc_kill: Option<String>,
}

/// The environment as characters.
pub struct Surroundings {
    pub open_settings: bool,
    pub open_install: Option<Seq<char>>,
    pub user: Option<Seq<char>>,
    pub expand_remote: Option<Seq<char>>,
    pub open_models: Option<Seq<char>>,
    pub open_procs: bool,
    pub proc_query: Option<Seq<char>>,
    pub proc_host: Option<Seq<char>>,
    pub proc_confirm: Option<Seq<char>>,
    pub proc_kill: Option<Seq<char>>,
}

impl View for Switches {
    type V = Surroundings;

    open spec fn view(&self) -> Surroundings {
        Surroundings {
            open_settings: self.open_settings,
            open_install: applet::chars_in(self.open_install),
            user: applet::chars_in(self.user),
            expand_remote: applet::chars_in(self.expand_remote),
            open_models: applet::chars_in(self.open_models),
            open_procs: self.open_procs,
            proc_query: applet::chars_in(self.proc_query),
            proc_host: applet::chars_in(self.proc_host),
            proc_confirm: applet::chars_in(self.proc_confirm),
            proc_kill: applet::chars_in(self.proc_kill),
        }
    }
}

/// A signal that a switch names.
pub open spec fn signal_in(value: Option<Seq<char>>) -> Option<(u32, i32)> {
    match value {
        Some(value) => pid_signal(value),
        None => None,
    }
}

/// The state at the beginning, before anything is asked for.
pub open spec fn opening_screen(
    config: Config,
    snapshot: Snapshot,
    hostname: Seq<char>,
    e: Surroundings,
) -> Screen {
    Screen {
        popup: None,
        spark_state: snapshot,
        spark_open: config.spark_section_open,
        config,
        settings_open: e.open_settings,
        host_draft: Seq::empty(),
        note: None,
        installing: false,
        install_state: applet::idle(),
        install_host: or_empty(e.open_install),
        install_user: match e.user {
            Some(user) => user,
            None => "root"@,
        },
        install_password: Seq::empty(),
        install_port: "22"@,
        install_handled: false,
        install_is_update: false,
        expanded_remote: match e.expand_remote {
            Some(list) => config::stripped(text::pieces(list, ',')),
            None => Seq::empty(),
        },
        hostname,
        models_open: match e.open_models {
            Some(value) => model_place(value),
            None => None,
        },
        loading: false,
        load_state: applet::unloaded(),
        procs_open: e.open_procs,
        proc_query: or_empty(e.proc_query),
        proc_sort: SortKey::Cpu,
        proc_host: match e.proc_host {
            Some(value) => match text::unsigned_literal(value, 10, usize::MAX as int) {
                Some(index) => index as usize,
                None => 0,
            },
            None => 0,
        },
        proc_remote: None,
        asking: false,
        proc_confirm: signal_in(e.proc_confirm),
        proc_expanded: None,
        proc_note: None,
        scanning: e.open_procs,
    }
}

/// The state at the beginning, and what is asked for: the process list where its
/// page is shown, and the signal of the switch.
pub open spec fn started(screen: Screen, e: Surroundings) -> (Screen, Seq<Deed>) {
    let (first, asked) = if e.open_procs {
        applet::refreshed(screen)
    } else {
        applet::quiet(screen)
    };
    let (second, signalled) = match signal_in(e.proc_kill) {
        Some((pid, signal)) => applet::signalled(first, pid, signal),
        None => applet::quiet(first),
    };
    (second, seq![Deed::Scan(e.open_procs)] + asked + signalled)
}

fn copy_option(value: &Option<String>) -> (r: String)
    ensures
        r@ == or_empty(applet::chars_in(*value)),
{
    match value {
        Some(s) => text::copy(s.as_str()),
        None => {
            let r = String::new();
            assert(r@ =~= Seq::empty());
            r
        },
    }
}

fn expanded(value: &Option<String>) -> (r: Vec<String>)
    ensures
        text::views(r@) == (match applet::chars_in(*value) {
            Some(list) => config::stripped(text::pieces(list, ',')),
            None => Seq::empty(),
        }),
{
    match value {
        Some(list) => {
            let parts = text::split_char(list.as_str(), ',');
            config::strip_all(&parts)
        },
        None => {
            let r: Vec<String> = Vec::new();
            assert(text::views(r@) =~= Seq::empty());
            r
        },
    }
}

fn selected(value: &Option<String>) -> (r: usize)
    ensures
        r == (match applet::chars_in(*value) {
            Some(value) => match text::unsigned_literal(value, 10, usize::MAX as int) {
                Some(index) => index as usize,
                None => 0usize,
            },
            None => 0usize,
        }),
{
    match value {
        Some(value) => match text::parse_usize(value.as_str()) {
            Some(index) => index,
            None => 0,
        },
        None => 0,
    }
}

fn signal_of(value: &Option<String>) -> (r: Option<(u32, i32)>)
    ensures
        r == signal_in(applet::chars_in(*value)),
{
    match value {
        Some(value) => parse_pid_signal(value.as_str()),
        None => None,
    }
}

fn first_state(
    config: SparkConfig,
    snapshot: SparkSnapshot,
    hostname: String,
    switches: &Switches,
) -> (r: Sysmon)
    ensures
        r@ == opening_screen(config@, snapshot@, hostname@, switches@),
{
    let nothing: Option<String> = None;
    let models_open = match &switches.open_models {
        Some(value) => parse_model_place(value.as_str()),
        None => None,
    };
    let install_user = match &switches.user {
        Some(user) => text::copy(user.as_str()),
        None => text::copy("root"),
    };
    let spark_open = config.spark_section_open;
    Sysmon {
        popup: None,
        spark_state: snapshot,
        spark_open,
        config,
        settings_open: switches.open_settings,
        host_draft: copy_option(&nothing),
        note: None,
        installing: false,
        install_state: InstallState::default(),
        install_host: copy_option(&switches.open_install),
        install_user,
        install_password: copy_option(&nothing),
        install_port: text::copy("22"),
        install_handled: false,
        install_is_update: false,
        expanded_remote: expanded(&switches.expand_remote),
        hostname,
        models_open,
        loading: false,
        load_state: LoadState { running: false, message: copy_option(&nothing), failed: false },
        procs_open: switches.open_procs,
        proc_query: copy_option(&switches.proc_query),
        proc_sort: SortKey::Cpu,
        proc_host: selected(&switches.proc_host),
        proc_remote: None,
        asking: false,
        proc_confirm: signal_of(&switches.proc_confirm),
        proc_expanded: None,
        proc_note: None,
        scanning: switches.open_procs,
    }
}

fn join(first: Vec<Effect>, second: Vec<Effect>) -> (r: Vec<Effect>)
    ensures
        applet::deeds(r@) == applet::deeds(first@) + applet::deeds(second@),
{
    let ghost a = first@;
    let ghost b = second@;
    let mut r = first;
    let mut rest = second;
    r.append(&mut rest);
    assert(applet::deeds(r@) =~= applet::deeds(a) + applet::deeds(b));
    r
}

/// Starts the applet with a configuration, the first snapshot and the name of
/// this machine.
pub fn init(
    config: SparkConfig,
    snapshot: SparkSnapshot,
    hostname: String,
    switches: &Switches,
) -> (r: (Sysmon, Vec<Effect>))
    ensures
        (r.0@, applet::deeds(r.1@)) == started(
            opening_screen(config@, snapshot@, hostname@, switches@),
            switches@,
        ),
{
    let mut app = first_state(config, snapshot, hostname, switches);
    let mut first: Vec<Effect> = Vec::new();
    first.push(Effect::Scan(switches.open_procs));
    assert(applet::deeds(first@) =~= seq![Deed::Scan(switches.open_procs)]);
    let asked = if switches.open_procs {
        app.refresh_processes()
    } else {
        Vec::new()
    };
    assert(!switches.open_procs ==> applet::deeds(asked@) =~= Seq::empty());
    let effects = join(first, asked);
    let signalled = match signal_of(&switches.proc_kill) {
        Some((pid, signal)) => app.perform_signal(pid, signal),
        None => Vec::new(),
    };
    assert(signal_in(switches@.proc_kill) is None ==> applet::deeds(signalled@)
        =~= Seq::empty());
    (app, join(effects, signalled))
}

/// Every argument of an installation sets what it names.
pub proof fn install_arguments_set_what_they_name(value: Seq<char>, rest: Seq<Seq<char>>, order: Order, port: u16, other: Seq<char>)
    requires
        other.len() > 23,
    ensures
        ordered(seq!["--install-agent"@, value] + rest, order) == ordered(
            rest,
            Order { wish: Wish { host: value, ..order.wish }, found: true, ..order },
        ),
        ordered(seq!["--install-user"@, value] + rest, order) == ordered(
            rest,
            Order { wish: Wish { user: value, ..order.wish }, ..order },
        ),
        ordered(seq!["--install-port"@, text::decimal(port as nat)] + rest, order) == ordered(
            rest,
            Order { wish: Wish { port, ..order.wish }, ..order },
        ),
        ordered(seq!["--install-password-file"@, value] + rest, order) == ordered(
            rest,
            Order { password_file: Some(value), ..order },
        ),
        ordered(seq![other] + rest, order) == ordered(rest, order),
        ordered(Seq::empty(), order) == order,
{
    reveal_strlit("--install-agent");
    reveal_strlit("--install-user");
    reveal_strlit("--install-port");
    reveal_strlit("--install-password-file");
    assert("--install-agent"@.len() == 15 && "--install-user"@.len() == 14
        && "--install-port"@.len() == 14 && "--install-password-file"@.len() == 23);
    assert("--install-user"@[10] == 'u' && "--install-port"@[10] == 'p');
    text::decimals_are_read_back(port as nat, u16::MAX as int);
    let number = text::decimal(port as nat);
    assert((seq!["--install-agent"@, value] + rest).skip(2) =~= rest);
    assert((seq!["--install-user"@, value] + rest).skip(2) =~= rest);
    assert((seq!["--install-port"@, number] + rest).skip(2) =~= rest);
    assert((seq!["--install-password-file"@, value] + rest).skip(2) =~= rest);
    assert((seq![other] + rest).skip(1) =~= rest);
}

/// Without arguments nothing is installed; the user is the one of the session, or
/// root, and the port is 22.
pub proof fn orders_start_empty(user: Seq<char>)
    ensures
        !no_order(None).found,
        no_order(None).wish.user == "root"@,
        no_order(Some(user)).wish.user == user,
        no_order(None).wish.port == 22,
        no_order(None).wish.host.len() == 0,
        no_order(None).wish.password.len() == 0,
        no_order(None).password_file is None,
{
}

/// A process and a signal stand on the two sides of a colon.
pub proof fn signals_are_read(pid: u32, signal: u16)
    ensures
        pid_signal(text::decimal(pid as nat).push(':') + text::decimal(signal as nat)) == Some(
            (pid, signal as i32),
        ),
{
    let a = text::decimal(pid as nat);
    let b = text::decimal(signal as nat);
    text::digits_denote_their_number(pid as nat, 10);
    text::digits_denote_their_number(signal as nat, 10);
    text::decimals_are_read_back(pid as nat, u32::MAX as int);
    text::decimals_are_read_back(signal as nat, i32::MAX as int);
    assert forall|i: int| 0 <= i < a.len() implies a[i] != ':' by {
        assert(text::is_digit(a[i]));
    }
    text::cuts_at_the_first_mark(a, b, ':');
    let none = Seq::<char>::empty();
    assert(none + a + none =~= a);
    assert(none + b + none =~= b);
    assert(a.last() == a[a.len() - 1] && b.last() == b[b.len() - 1]);
    assert(a[0] != '+' && b[0] != '+');
    text::trimming_drops_the_whitespace(none, a, none);
    text::trimming_drops_the_whitespace(none, b, none);
}

/// A place is a target and, behind the last colon, a port.
pub proof fn places_are_read(target: Seq<char>, port: u16)
    ensures
        model_place(target.push(':') + text::decimal(port as nat)) == Some((target, port)),
{
    let b = text::decimal(port as nat);
    text::digits_denote_their_number(port as nat, 10);
    text::decimals_are_read_back(port as nat, u16::MAX as int);
    assert forall|i: int| 0 <= i < b.len() implies b[i] != ':' by {
        assert(text::is_digit(b[i]));
    }
    text::cuts_at_the_last_mark(target, b, ':');
}

/// This machine is called what the kernel calls it, else what the environment
/// does, else just local.
pub proof fn this_machine_has_a_name(kernel: Seq<char>, environment: Seq<char>)
    ensures
        text::trimmed(kernel).len() > 0 ==> hostname_of(Some(kernel), Some(environment))
            == text::trimmed(kernel),
        text::trimmed(kernel).len() == 0 ==> hostname_of(Some(kernel), Some(environment))
            == environment,
        hostname_of(None, Some(environment)) == environment,
        hostname_of(None, None) == "lokal"@,
{
}

/// The applet starts with the configuration, everything closed but what the
/// surroundings ask for, sorted by processor, and nothing waiting.
pub proof fn the_applet_starts_closed(config: Config, snapshot: Snapshot, hostname: Seq<char>, e: Surroundings)
    ensures
        ({
            let s = opening_screen(config, snapshot, hostname, e);
            &&& s.config == config
            &&& s.spark_state == snapshot
            &&& s.hostname == hostname
            &&& s.spark_open == config.spark_section_open
            &&& s.settings_open == e.open_settings
            &&& s.procs_open == e.open_procs
            &&& s.scanning == e.open_procs
            &&& s.proc_sort == SortKey::Cpu
            &&& s.popup is None && !s.installing && !s.loading && !s.asking
            &&& s.install_port == "22"@
            &&& s.install_password.len() == 0
            &&& e.user matches Some(u) ==> s.install_user == u
            &&& e.user is None ==> s.install_user == "root"@
            &&& e.open_install matches Some(h) ==> s.install_host == h
            &&& e.proc_query matches Some(q) ==> s.proc_query == q
            &&& e.proc_confirm is None ==> s.proc_confirm is None
            &&& e.proc_confirm matches Some(v) ==> s.proc_confirm == pid_signal(v)
            &&& e.open_models matches Some(v) ==> s.models_open == model_place(v)
        }),
{
}

/// The scan is switched as the surroundings ask, and a signal is sent only where
/// they name one.
pub proof fn starting_sends_no_signal(screen: Screen, e: Surroundings)
    requires
        e.proc_kill is None,
    ensures
        started(screen, e).1[0] == Deed::Scan(e.open_procs),
        !e.open_procs ==> started(screen, e) == (screen, seq![Deed::Scan(false)]),
        e.open_procs ==> started(screen, e).1 == seq![Deed::Scan(true)] + applet::next(
            screen,
            applet::Event::RefreshProcesses,
        ).1,
{
    reveal(applet::process_next);
    let (after, done) = started(screen, e);
    if !e.open_procs {
        assert(done =~= seq![Deed::Scan(false)]);
    } else {
        assert(done =~= seq![Deed::Scan(true)] + applet::next(
            screen,
            applet::Event::RefreshProcesses,
        ).1);
    }
}

} // verus!
