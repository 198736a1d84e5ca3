//! The node agent: its settings, when it samples, and where it listens.
use crate::ieee;
use crate::text;
use vstd::prelude::*;

verus! {

/// Reported to the applet, which compares it with the version it ships.
pub const VERSION: &'static str = "2.2.0";

/// Demand holds for this long after the last contact: clients that fetch one
/// snapshot and disconnect must still keep the sampling alive.
pub const DEMAND_GRACE_MS: u64 = 10_000;

/// Whether the last contact with a client lies within the grace period. Times are
/// in milliseconds.
pub fn under_demand(now: u64, last_client_seen: u64) -> (r: bool)
    ensures
        r == (now - last_client_seen < DEMAND_GRACE_MS),
        now < last_client_seen + 10_000 ==> r,
        now >= last_client_seen + 10_000 ==> !r,
{
    if now <= last_client_seen {
        true
    } else {
        now - last_client_seen < DEMAND_GRACE_MS
    }
}

/// Whether somebody is watching: an attached client or the grace period.
pub fn watched(attached: usize, now: u64, last_client_seen: u64) -> (r: bool)
    ensures
        r == (attached > 0 || now - last_client_seen < DEMAND_GRACE_MS),
        attached > 0 || now < last_client_seen + 10_000 ==> r,
        attached == 0 && now >= last_client_seen + 10_000 ==> !r,
{
    attached > 0 || under_demand(now, last_client_seen)
}

/// What the agent does at the end of a push interval.
#[derive(Debug, Clone, Copy, PartialEq, Eq, Structural)]
pub enum PushStep {
    /// Sample nothing and wait.
    Rest,
    /// Sample once and send the document to every client.
    Push,
}

/// Decides on a push, and when a client was last seen: an attached client is seen
/// now. Without a client nothing is sampled.
pub fn push_step(attached: usize, now: u64, last_client_seen: u64) -> (r: (PushStep, u64))
    ensures
        r.0 is Rest <==> attached == 0,
        r.1 == (if attached > 0 {
            now
        } else {
            last_client_seen
        }),
{
    if attached > 0 {
        (PushStep::Push, now)
    } else {
        (PushStep::Rest, last_client_seen)
    }
}

// ---------------------------------------------------------------- arguments

/// The settings of the agent. Intervals are seconds as double-precision bits.
#[derive(Debug)]
pub struct Args {
    pub bind: String,
    pub port: u16,
    pub push_interval: u64,
    pub gpu_interval: u64,
    pub llm_interval: u64,
    pub discover: bool,
    pub discovery_interval: u64,
    pub metrics_url: String,
    pub token: String,
    pub once: bool,
}

/// The settings as characters.
#[verifier::ext_equal]
pub struct Settings {
    pub bind: Seq<char>,
    pub port: u16,
    pub push_interval: u64,
    pub gpu_interval: u64,
    pub llm_interval: u64,
    pub discover: bool,
    pub discovery_interval: u64,
    pub metrics_url: Seq<char>,
    pub token: Seq<char>,
    pub once: bool,
}

impl View for Args {
    type V = Settings;

    open spec fn view(&self) -> Settings {
        Settings {
            bind: self.bind@,
            port: self.port,
            push_interval: self.push_interval,
            gpu_interval: self.gpu_interval,
            llm_interval: self.llm_interval,
            discover: self.discover,
            discovery_interval: self.discovery_interval,
            metrics_url: self.metrics_url@,
            token: self.token@,
            once: self.once,
        }
    }
}

/// The settings without arguments: push every 2 s, GPU every 3 s, engine every
/// 4 s, discovery every 60 s.
pub open spec fn default_settings() -> Settings {
    Settings {
        bind: "0.0.0.0"@,
        port: 8787,
        push_interval: 0x4000_0000_0000_0000,
        gpu_interval: 0x4008_0000_0000_0000,
        llm_interval: 0x4010_0000_0000_0000,
        discover: true,
        discovery_interval: 0x404e_0000_0000_0000,
        metrics_url: "http://127.0.0.1:8000/metrics"@,
        token: Seq::empty(),
        once: false,
    }
}

impl Default for Args {
    fn default() -> (r: Self)
        ensures
            r@ == default_settings(),
    {
        let token = String::new();
        assert(token@ =~= Seq::empty());
        Args {
            bind: text::copy("0.0.0.0"),
            port: 8787,
            push_interval: 0x4000_0000_0000_0000,
            gpu_interval: 0x4008_0000_0000_0000,
            llm_interval: 0x4010_0000_0000_0000,
            discover: true,
            discovery_interval: 0x404e_0000_0000_0000,
            metrics_url: text::copy("http://127.0.0.1:8000/metrics"),
            token,
            once: false,
        }
    }
}

/// What the arguments ask for.
#[derive(Debug)]
pub enum Invocation {
    Run(Args),
    Version,
    Help,
    Error(String),
}

/// What the arguments ask for, as characters.
pub enum Request {
    Run(Settings),
    Version,
    Help,
    Error(Seq<char>),
}

impl View for Invocation {
    type V = Request;

    open spec fn view(&self) -> Request {
        match self {
            Invocation::Run(args) => Request::Run(args@),
            Invocation::Version => Request::Version,
            Invocation::Help => Request::Help,
            Invocation::Error(e) => Request::Error(e@),
        }
    }
}

/// Readings of arguments as seconds: the text and its value as
/// double-precision bits.
pub open spec fn seconds_of(list: Seq<(String, u64)>) -> Seq<(Seq<char>, u64)> {
    list.map_values(|p: (String, u64)| (p.0@, p.1))
}

/// The reading of a text; the first one counts.
pub open spec fn seconds_in(list: Seq<(Seq<char>, u64)>, s: Seq<char>) -> Option<u64>
    decreases list.len(),
{
    if list.len() == 0 {
        None
    } else if list[0].0 == s {
        Some(list[0].1)
    } else {
        seconds_in(list.drop_first(), s)
    }
}

/// The arguments that are followed by a value.
pub open spec fn takes_value(item: Seq<char>) -> bool {
    ||| item == "--bind"@
    ||| item == "--port"@
    ||| item == "--push-interval"@
    ||| item == "--gpu-interval"@
    ||| item == "--vllm-interval"@
    ||| item == "--vllm-url"@
    ||| item == "--discovery-interval"@
    ||| item == "--token"@
}

/// The settings after an argument and its value, or what is wrong with it.
pub open spec fn with_value(
    settings: Settings,
    item: Seq<char>,
    value: Seq<char>,
    readings: Seq<(Seq<char>, u64)>,
) -> Result<Settings, Seq<char>> {
    let seconds = seconds_in(readings, value);
    if item == "--bind"@ {
        Ok(Settings { bind: value, ..settings })
    } else if item == "--port"@ {
        match text::unsigned_literal(value, 10, u16::MAX as int) {
            Some(port) => Ok(Settings { port: port as u16, ..settings }),
            None => Err("--port expects a number"@),
        }
    } else if item == "--vllm-url"@ {
        Ok(Settings { metrics_url: value, ..settings })
    } else if item == "--token"@ {
        Ok(Settings { token: value, ..settings })
    } else {
        match seconds {
            Some(bits) => if item == "--push-interval"@ {
                Ok(Settings { push_interval: bits, ..settings })
            } else if item == "--gpu-interval"@ {
                Ok(Settings { gpu_interval: bits, ..settings })
            } else if item == "--vllm-interval"@ {
                Ok(Settings { llm_interval: bits, ..settings })
            } else {
                Ok(Settings { discovery_interval: bits, ..settings })
            },
            None => Err(item + " expects seconds"@),
        }
    }
}

/// What a list of arguments asks for, given the settings so far. The first
/// argument that is wrong, or that asks for the version or for help, decides.
pub open spec fn requested(
    settings: Settings,
    items: Seq<Seq<char>>,
    readings: Seq<(Seq<char>, u64)>,
) -> Request
    decreases items.len(),
{
    if items.len() == 0 {
        Request::Run(settings)
    } else {
        let item = items[0];
        if takes_value(item) {
            if items.len() < 2 {
                Request::Error(item + " needs a value"@)
            } else {
                match with_value(settings, item, items[1], readings) {
                    Ok(next) => requested(next, items.skip(2), readings),
                    Err(e) => Request::Error(e),
                }
            }
        } else if item == "--discover"@ {
            requested(Settings { discover: true, ..settings }, items.skip(1), readings)
        } else if item == "--no-discover"@ {
            requested(Settings { discover: false, ..settings }, items.skip(1), readings)
        } else if item == "--once"@ {
            requested(Settings { once: true, ..settings }, items.skip(1), readings)
        } else if item == "--version"@ {
            Request::Version
        } else if item == "--help"@ || item == "-h"@ {
            Request::Help
        } else {
            Request::Error("unknown argument "@ + item)
        }
    }
}

fn find_seconds(list: &Vec<(String, u64)>, s: &str) -> (r: Option<u64>)
    ensures
        r == seconds_in(seconds_of(list@), s@),
{
    let ghost all = seconds_of(list@);
    let mut i: usize = 0;
    assert(all.skip(0) =~= all);
    while i < list.len()
        invariant
            i <= list@.len(),
            all == seconds_of(list@),
            seconds_in(all, s@) == seconds_in(all.skip(i as int), s@),
        decreases list@.len() - i,
    {
        assert(all.skip(i as int)[0] == (list@[i as int].0@, list@[i as int].1));
        assert(all.skip(i as int).drop_first() =~= all.skip(i + 1));
        if text::same(list[i].0.as_str(), s) {
            return Some(list[i].1);
        }
        i += 1;
    }
    None
}

fn needs_value(item: &str) -> (r: bool)
    ensures
        r == takes_value(item@),
{
    text::same(item, "--bind") || text::same(item, "--port") || text::same(
        item,
        "--push-interval",
    ) || text::same(item, "--gpu-interval") || text::same(item, "--vllm-interval")
        || text::same(item, "--vllm-url") || text::same(item, "--discovery-interval")
        || text::same(item, "--token")
}

impl Args {
    fn set(&mut self, item: &str, value: &str, readings: &Vec<(String, u64)>) -> (r: Option<String>)
        ensures
            match with_value(old(self)@, item@, value@, seconds_of(readings@)) {
                Ok(next) => r is None && final(self)@ == next,
                Err(e) => r matches Some(s) && s@ == e,
            },
    {
        if text::same(item, "--bind") {
            self.bind = text::copy(value);
        } else if text::same(item, "--port") {
            match text::parse_u16(value) {
                Some(port) => {
                    self.port = port;
                },
                None => return Some(text::copy("--port expects a number")),
            }
        } else if text::same(item, "--vllm-url") {
            self.metrics_url = text::copy(value);
        } else if text::same(item, "--token") {
            self.token = text::copy(value);
        } else {
            match find_seconds(readings, value) {
                Some(bits) => {
                    if text::same(item, "--push-interval") {
                        self.push_interval = bits;
                    } else if text::same(item, "--gpu-interval") {
                        self.gpu_interval = bits;
                    } else if text::same(item, "--vllm-interval") {
                        self.llm_interval = bits;
                    } else {
                        self.discovery_interval = bits;
                    }
                },
                None => return Some(text::cat2(item, " expects seconds")),
            }
        }
        None
    }
}

/// Reads the arguments. `readings` gives the seconds for every argument that
/// reads as a number, as double-precision bits.
pub fn parse_args(items: &Vec<String>, readings: &Vec<(String, u64)>) -> (r: Invocation)
    ensures
        r@ == requested(default_settings(), text::views(items@), seconds_of(readings@)),
{
    let ghost all = text::views(items@);
    let ghost table = seconds_of(readings@);
    let n: usize = items.len();
    let mut args = Args::default();
    let mut i: usize = 0;
    assert(all.skip(0) =~= all);
    while i < n
        invariant
            i <= n == items@.len(),
            all == text::views(items@),
            table == seconds_of(readings@),
            requested(default_settings(), all, table) == requested(
                args@,
                all.skip(i as int),
                table,
            ),
        decreases n - i,
    {
        let ghost rest = all.skip(i as int);
        assert(rest[0] == items@[i as int]@);
        let item = items[i].as_str();
        if needs_value(item) {
            if i + 1 >= n {
                return Invocation::Error(text::cat2(item, " needs a value"));
            }
            assert(rest[1] == items@[i + 1]@);
            assert(rest.skip(2) =~= all.skip(i + 2));
            if let Some(error) = args.set(item, items[i + 1].as_str(), readings) {
                return Invocation::Error(error);
            }
            i += 2;
        } else {
            assert(rest.skip(1) =~= all.skip(i + 1));
            if text::same(item, "--discover") {
                args.discover = true;
            } else if text::same(item, "--no-discover") {
                args.discover = false;
            } else if text::same(item, "--once") {
                args.once = true;
            } else if text::same(item, "--version") {
                return Invocation::Version;
            } else if text::same(item, "--help") || text::same(item, "-h") {
                return Invocation::Help;
            } else {
                return Invocation::Error(text::cat2("unknown argument ", item));
            }
            i += 1;
        }
    }
    Invocation::Run(args)
}

/// What `--version` prints.
pub fn version_text() -> (r: String)
    ensures
        r@ == "megatron-sysmon-agent "@ + VERSION@ + "\n"@,
{
    text::cat3("megatron-sysmon-agent ", VERSION, "\n")
}

/// What `--help` prints.
pub fn help_text() -> (r: String)
    ensures
        r@ == "megatron-sysmon-agent "@ + VERSION@ + HELP@,
{
    text::cat3("megatron-sysmon-agent ", VERSION, HELP)
}

pub const HELP: &'static str =
    "\n\n--bind ADDR (0.0.0.0)      --port N (8787)\n--push-interval S (2)      --gpu-interval S (3)\n--vllm-interval S (4)      --vllm-url URL\n--discover / --no-discover --discovery-interval S (60)\n--token VALUE              --once\n";

// ---------------------------------------------------------------- addresses to bind

/// Which addresses to try, in order: a dual-stack socket first where the bind
/// address allows it.
pub open spec fn bind_plan_of(bind: Seq<char>) -> Seq<Seq<char>> {
    if bind == "::"@ || bind.len() == 0 {
        seq!["::"@, "0.0.0.0"@]
    } else if bind == "0.0.0.0"@ {
        seq!["::"@, bind]
    } else {
        seq![bind]
    }
}

pub fn bind_plan(bind: &str) -> (r: Vec<String>)
    ensures
        text::views(r@) == bind_plan_of(bind@),
{
    let mut out: Vec<String> = Vec::new();
    if text::same(bind, "::") || text::is_empty(bind) {
        out.push(text::copy("::"));
        out.push(text::copy("0.0.0.0"));
    } else if text::same(bind, "0.0.0.0") {
        out.push(text::copy("::"));
        out.push(text::copy(bind));
    } else {
        out.push(text::copy(bind));
    }
    assert(text::views(out@) =~= bind_plan_of(bind@));
    out
}

/// How a bound address is shown where the system does not tell it.
pub fn bound_text(address: &str, port: u16) -> (r: String)
    ensures
        r@ == (if address@ == "::"@ {
            "[::]:"@ + text::decimal(port as nat)
        } else {
            address@ + ":"@ + text::decimal(port as nat)
        }),
{
    let number = text::from_u64(port as u64);
    if text::same(address, "::") {
        text::cat2("[::]:", number.as_str())
    } else {
        text::cat3(address, ":", number.as_str())
    }
}

/// Every setting has its argument: the value that follows it is taken, and no
/// other setting changes.
pub proof fn arguments_set_what_they_name(
    settings: Settings,
    value: Seq<char>,
    rest: Seq<Seq<char>>,
    readings: Seq<(Seq<char>, u64)>,
    port: u16,
    bits: u64,
)
    requires
        seconds_in(readings, value) == Some(bits),
    ensures
        requested(settings, seq!["--bind"@, value] + rest, readings) == requested(
            Settings { bind: value, ..settings },
            rest,
            readings,
        ),
        requested(settings, seq!["--token"@, value] + rest, readings) == requested(
            Settings { token: value, ..settings },
            rest,
            readings,
        ),
        requested(settings, seq!["--vllm-url"@, value] + rest, readings) == requested(
            Settings { metrics_url: value, ..settings },
            rest,
            readings,
        ),
        requested(settings, seq!["--push-interval"@, value] + rest, readings) == requested(
            Settings { push_interval: bits, ..settings },
            rest,
            readings,
        ),
        requested(settings, seq!["--gpu-interval"@, value] + rest, readings) == requested(
            Settings { gpu_interval: bits, ..settings },
            rest,
            readings,
        ),
        requested(settings, seq!["--vllm-interval"@, value] + rest, readings) == requested(
            Settings { llm_interval: bits, ..settings },
            rest,
            readings,
        ),
        requested(settings, seq!["--discovery-interval"@, value] + rest, readings) == requested(
            Settings { discovery_interval: bits, ..settings },
            rest,
            readings,
        ),
        requested(settings, seq!["--port"@, text::decimal(port as nat)] + rest, readings)
            == requested(Settings { port, ..settings }, rest, readings),
{
    lemma_argument_names();
    text::decimals_are_read_back(port as nat, u16::MAX as int);
    let number = text::decimal(port as nat);
    assert((seq!["--bind"@, value] + rest).skip(2) =~= rest);
    assert((seq!["--token"@, value] + rest).skip(2) =~= rest);
    assert((seq!["--vllm-url"@, value] + rest).skip(2) =~= rest);
    assert((seq!["--push-interval"@, value] + rest).skip(2) =~= rest);
    assert((seq!["--gpu-interval"@, value] + rest).skip(2) =~= rest);
    assert((seq!["--vllm-interval"@, value] + rest).skip(2) =~= rest);
    assert((seq!["--discovery-interval"@, value] + rest).skip(2) =~= rest);
    assert((seq!["--port"@, number] + rest).skip(2) =~= rest);
}

proof fn lemma_argument_names()
    ensures
        "--bind"@ != "--port"@,
        "--bind"@.len() == 6,
        "--port"@.len() == 6,
        "--token"@.len() == 7,
        "--vllm-url"@.len() == 10,
        "--push-interval"@.len() == 15,
        "--gpu-interval"@.len() == 14,
        "--vllm-interval"@.len() == 15,
        "--push-interval"@ != "--vllm-interval"@,
        "--discovery-interval"@.len() == 20,
        "--discover"@.len() == 10,
        "--discover"@ != "--vllm-url"@,
        "--no-discover"@.len() == 13,
        "--once"@.len() == 6,
        "--once"@ != "--bind"@,
        "--once"@ != "--port"@,
        "--version"@.len() == 9,
        "--help"@.len() == 6,
        "--help"@ != "--bind"@,
        "--help"@ != "--port"@,
        "--help"@ != "--once"@,
        "-h"@.len() == 2,
{
    reveal_strlit("--bind");
    reveal_strlit("--port");
    reveal_strlit("--token");
    reveal_strlit("--vllm-url");
    reveal_strlit("--push-interval");
    reveal_strlit("--gpu-interval");
    reveal_strlit("--vllm-interval");
    reveal_strlit("--discovery-interval");
    reveal_strlit("--discover");
    reveal_strlit("--no-discover");
    reveal_strlit("--once");
    reveal_strlit("--version");
    reveal_strlit("--help");
    reveal_strlit("-h");
    assert("--bind"@[2] == 'b' && "--port"@[2] == 'p' && "--once"@[2] == 'o' && "--help"@[2] == 'h');
    assert("--push-interval"@[2] == 'p' && "--vllm-interval"@[2] == 'v');
    assert("--discover"@[2] == 'd' && "--vllm-url"@[2] == 'v');
}

/// The switches switch, the version and the help are told, and what is no
/// argument, or lacks its value, is an error.
pub proof fn switches_switch(settings: Settings, rest: Seq<Seq<char>>, readings: Seq<(Seq<char>, u64)>, other: Seq<char>)
    requires
        other.len() > 20,
    ensures
        requested(settings, seq!["--discover"@] + rest, readings) == requested(
            Settings { discover: true, ..settings },
            rest,
            readings,
        ),
        requested(settings, seq!["--no-discover"@] + rest, readings) == requested(
            Settings { discover: false, ..settings },
            rest,
            readings,
        ),
        requested(settings, seq!["--once"@] + rest, readings) == requested(
            Settings { once: true, ..settings },
            rest,
            readings,
        ),
        requested(settings, seq!["--version"@] + rest, readings) == Request::Version,
        requested(settings, seq!["--help"@] + rest, readings) == Request::Help,
        requested(settings, seq!["-h"@] + rest, readings) == Request::Help,
        requested(settings, seq![other] + rest, readings) == Request::Error(
            "unknown argument "@ + other,
        ),
        requested(settings, Seq::empty(), readings) == Request::Run(settings),
        requested(settings, seq!["--bind"@], readings) == Request::Error("--bind"@ + " needs a value"@),
        text::unsigned_literal(other, 10, u16::MAX as int) is None ==> requested(
            settings,
            seq!["--port"@, other] + rest,
            readings,
        ) == Request::Error("--port expects a number"@),
{
    lemma_argument_names();
    assert((seq!["--discover"@] + rest).skip(1) =~= rest);
    assert((seq!["--no-discover"@] + rest).skip(1) =~= rest);
    assert((seq!["--once"@] + rest).skip(1) =~= rest);
    assert((seq!["--version"@] + rest)[0] == "--version"@);
    assert((seq!["--help"@] + rest)[0] == "--help"@);
    assert((seq!["-h"@] + rest)[0] == "-h"@);
    assert((seq![other] + rest)[0] == other);
    assert((seq!["--port"@, other] + rest)[0] == "--port"@);
    assert((seq!["--port"@, other] + rest)[1] == other);
}

/// Without arguments the agent serves port 8787 on every address, pushes every
/// two seconds, reads the GPU every three and the engine every four, and looks
/// for servers once a minute.
pub proof fn defaults_are_settled()
    ensures
        ({
            let s = default_settings();
            &&& s.bind == "0.0.0.0"@
            &&& s.port == 8787
            &&& s.push_interval == ieee::double_of(2)
            &&& s.gpu_interval == ieee::double_of(3)
            &&& s.llm_interval == ieee::double_of(4)
            &&& s.discovery_interval == ieee::double_of(60)
            &&& s.discover
            &&& !s.once
            &&& s.token.len() == 0
            &&& s.metrics_url == "http://127.0.0.1:8000/metrics"@
        }),
{
    reveal_with_fuel(ieee::top, 7);
    ieee::lemma_two_small();
}

/// A bind address that stands for every address is tried with both families, IPv6
/// first; any other is used as it is.
pub proof fn both_families_are_tried(bind: Seq<char>)
    ensures
        bind.len() == 0 || bind == "::"@ || bind == "0.0.0.0"@ ==> bind_plan_of(bind) == seq![
            "::"@,
            "0.0.0.0"@,
        ],
        bind.len() > 0 && bind != "::"@ && bind != "0.0.0.0"@ ==> bind_plan_of(bind) == seq![bind],
{
}

} // verus!
