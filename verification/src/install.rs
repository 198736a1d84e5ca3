//! Installing the node agent on a remote host over SSH.
//!
//! The protocol is a state machine: `Installer` says which remote command to run
//! or which file to upload next, takes the outcome and keeps the log that the
//! popup shows. Child processes and temporary files are the caller's.
//!
//! Passwords reach only the askpass helper and sudo's standard input; they
//! never appear in a command line or in the log.
use crate::text;
use vstd::prelude::*;

verus! {

// ---------------------------------------------------------------- versions

/// Version of the agent binaries that are shipped with the applet.
pub const AGENT_VERSION: &'static str = "2.2.0\n";

/// The expected agent version without surrounding whitespace.
pub fn expected_agent_version() -> (r: String)
    ensures
        r@ == text::trimmed(AGENT_VERSION@),
{
    text::trim(AGENT_VERSION)
}

/// `s` with every separator of a version turned into a dot.
pub open spec fn dotted(s: Seq<char>) -> Seq<char> {
    s.map_values(
        |c: char|
            if c == '-' || c == '+' {
                '.'
            } else {
                c
            },
    )
}

/// A part of a version as a number; what is no number counts as zero.
pub open spec fn part_value(part: Seq<char>) -> int {
    match text::unsigned_literal(part, 10, u64::MAX as int) {
        Some(v) => v,
        None => 0,
    }
}

/// The numbers of a version: it may start with `v`, and its parts stand
/// between `.`, `-` and `+`.
pub open spec fn version_parts(version: Seq<char>) -> Seq<int> {
    text::pieces(dotted(text::without_leading(text::trimmed(version), 'v')), '.').map_values(
        |part: Seq<char>| part_value(part),
    )
}

/// The part at an index; missing parts count as zero.
pub open spec fn part_at(parts: Seq<int>, i: int) -> int {
    if 0 <= i < parts.len() {
        parts[i]
    } else {
        0
    }
}

/// The difference at the first index from `i` on where two versions differ,
/// zero where none does.
pub open spec fn difference(a: Seq<int>, b: Seq<int>, i: int) -> int
    decreases (if a.len() > b.len() { a.len() } else { b.len() }) - i,
{
    if i >= a.len() && i >= b.len() {
        0
    } else if part_at(a, i) != part_at(b, i) {
        part_at(a, i) - part_at(b, i)
    } else {
        difference(a, b, i + 1)
    }
}

/// Negative, zero or positive as the first version is older, equal or newer.
pub open spec fn version_order(left: Seq<char>, right: Seq<char>) -> int {
    difference(version_parts(left), version_parts(right), 0)
}

fn undash(value: &str) -> (r: String)
    ensures
        r@ == dotted(value@),
{
    let chars = text::chars_of(value);
    let mut out = String::new();
    let mut i: usize = 0;
    while i < chars.len()
        invariant
            i <= chars@.len(),
            chars@ == value@,
            out@ == dotted(value@).take(i as int),
        decreases chars@.len() - i,
    {
        let c = chars[i];
        if c == '-' || c == '+' {
            out.push('.');
        } else {
            out.push(c);
        }
        assert(dotted(value@).take(i + 1) =~= dotted(value@).take(i as int).push(
            dotted(value@)[i as int],
        ));
        i += 1;
    }
    assert(dotted(value@).take(chars@.len() as int) =~= dotted(value@));
    out
}

fn parts(value: &str) -> (r: Vec<u64>)
    ensures
        r@.map_values(|v: u64| v as int) == version_parts(value@),
{
    let trimmed = text::trim(value);
    let bare = text::trim_leading(trimmed.as_str(), 'v');
    let dots = undash(bare.as_str());
    let pieces = text::split_char(dots.as_str(), '.');
    let ghost list = text::pieces(dots@, '.');
    let mut out: Vec<u64> = Vec::new();
    let mut i: usize = 0;
    while i < pieces.len()
        invariant
            i <= pieces@.len(),
            text::views(pieces@) == list,
            out@.len() == i,
            forall|j: int| 0 <= j < i ==> out@[j] == part_value(list[j]),
        decreases pieces@.len() - i,
    {
        let ghost piece = pieces@[i as int]@;
        assert(list[i as int] == piece);
        match text::parse_u64(pieces[i].as_str()) {
            Some(v) => out.push(v),
            None => out.push(0),
        }
        i += 1;
    }
    assert(list.len() == pieces@.len());
    assert(out@.map_values(|v: u64| v as int) =~= version_parts(value@));
    out
}

fn get(parts: &Vec<u64>, i: usize) -> (r: u64)
    ensures
        r == part_at(parts@.map_values(|v: u64| v as int), i as int),
{
    if i < parts.len() {
        parts[i]
    } else {
        0
    }
}

fn sign(left: &str, right: &str) -> (r: i8)
    ensures
        r == -1 <==> version_order(left@, right@) < 0,
        r == 0 <==> version_order(left@, right@) == 0,
        r == 1 <==> version_order(left@, right@) > 0,
{
    let a = parts(left);
    let b = parts(right);
    let ghost x = version_parts(left@);
    let ghost y = version_parts(right@);
    let mut i: usize = 0;
    while i < a.len() || i < b.len()
        invariant
            i <= a@.len() || i <= b@.len(),
            x == a@.map_values(|v: u64| v as int),
            y == b@.map_values(|v: u64| v as int),
            x == version_parts(left@),
            y == version_parts(right@),
            version_order(left@, right@) == difference(x, y, i as int),
        decreases
                (if a@.len() > b@.len() {
                    a@.len()
                } else {
                    b@.len()
                }) - i,
    {
        let v: u64 = get(&a, i);
        let w: u64 = get(&b, i);
        if v < w {
            return -1;
        }
        if v > w {
            return 1;
        }
        i += 1;
    }
    0
}

/// Compares two dotted versions; missing parts count as zero.
pub fn compare_versions(left: &str, right: &str) -> (r: std::cmp::Ordering)
    ensures
        match r {
            std::cmp::Ordering::Less => version_order(left@, right@) < 0,
            std::cmp::Ordering::Equal => version_order(left@, right@) == 0,
            std::cmp::Ordering::Greater => version_order(left@, right@) > 0,
        },
{
    let s: i8 = sign(left, right);
    if s < 0 {
        std::cmp::Ordering::Less
    } else if s > 0 {
        std::cmp::Ordering::Greater
    } else {
        std::cmp::Ordering::Equal
    }
}

proof fn lemma_difference_mirrored(a: Seq<int>, b: Seq<int>, i: int)
    ensures
        difference(a, b, i) == -difference(b, a, i),
    decreases
            (if a.len() > b.len() {
                a.len()
            } else {
                b.len()
            }) - i,
{
    if i < a.len() || i < b.len() {
        lemma_difference_mirrored(a, b, i + 1);
    }
}

/// Comparing two versions the other way round gives the opposite answer.
pub proof fn versions_compare_both_ways(left: Seq<char>, right: Seq<char>)
    ensures
        version_order(left, right) == -version_order(right, left),
{
    lemma_difference_mirrored(version_parts(left), version_parts(right), 0);
}

proof fn lemma_difference_chain(a: Seq<int>, b: Seq<int>, c: Seq<int>, i: int)
    requires
        difference(a, b, i) <= 0,
        difference(b, c, i) <= 0,
        0 <= i,
    ensures
        difference(a, c, i) <= 0,
        difference(a, b, i) < 0 || difference(b, c, i) < 0 ==> difference(a, c, i) < 0,
    decreases a.len() + b.len() + c.len() - i,
{
    if i < a.len() || i < b.len() || i < c.len() {
        if part_at(a, i) == part_at(b, i) && part_at(b, i) == part_at(c, i) {
            lemma_difference_end(a, b, i);
            lemma_difference_end(b, c, i);
            lemma_difference_end(a, c, i);
            lemma_difference_chain(a, b, c, i + 1);
        } else {
            lemma_difference_end(a, b, i);
            lemma_difference_end(b, c, i);
            lemma_difference_end(a, c, i);
        }
    }
}

proof fn lemma_difference_end(a: Seq<int>, b: Seq<int>, i: int)
    requires
        0 <= i,
    ensures
        difference(a, b, i) == if part_at(a, i) != part_at(b, i) {
            part_at(a, i) - part_at(b, i)
        } else {
            difference(a, b, i + 1)
        },
{
    reveal_with_fuel(difference, 2);
}

/// A version that is not newer than a second, which is not newer than a third,
/// is not newer than the third; it is older where one of the two steps is.
pub proof fn versions_are_ordered(a: Seq<char>, b: Seq<char>, c: Seq<char>)
    requires
        version_order(a, b) <= 0,
        version_order(b, c) <= 0,
    ensures
        version_order(a, c) <= 0,
        version_order(a, b) < 0 || version_order(b, c) < 0 ==> version_order(a, c) < 0,
{
    lemma_difference_chain(version_parts(a), version_parts(b), version_parts(c), 0);
}

/// What to do about the version an agent reported.
#[derive(Debug, Clone, Copy, PartialEq, Eq, Structural)]
pub enum AgentVersionState {
    /// Same version as the binaries in this applet.
    Current,
    /// Older agent: an update can be offered.
    Outdated,
    /// Newer agent: the applet itself is older.
    AppletOutdated,
    /// The agent did not report a version.
    Unknown,
}

/// How a reported version stands to an expected one.
pub open spec fn version_state(reported: Seq<char>, expected: Seq<char>) -> AgentVersionState {
    if text::trimmed(reported).len() == 0 {
        AgentVersionState::Unknown
    } else {
        let order = version_order(text::trimmed(reported), text::trimmed(expected));
        if order == 0 {
            AgentVersionState::Current
        } else if order < 0 {
            AgentVersionState::Outdated
        } else {
            AgentVersionState::AppletOutdated
        }
    }
}

/// How a reported version stands to the shipped one.
pub fn agent_version_state(reported: &str) -> (r: AgentVersionState)
    ensures
        r == version_state(reported@, AGENT_VERSION@),
{
    let reported = text::trim(reported);
    if text::is_empty(reported.as_str()) {
        return AgentVersionState::Unknown;
    }
    let expected = expected_agent_version();
    match compare_versions(reported.as_str(), expected.as_str()) {
        std::cmp::Ordering::Equal => AgentVersionState::Current,
        std::cmp::Ordering::Less => AgentVersionState::Outdated,
        std::cmp::Ordering::Greater => AgentVersionState::AppletOutdated,
    }
}

// ---------------------------------------------------------------- log and request

/// Number of lines the log keeps.
pub const LOG_LIMIT: usize = 400;

#[derive(Debug, Clone, Copy, PartialEq, Eq, Structural)]
pub enum InstallStatus {
    Idle,
    Running,
    Done,
    Failed,
}

impl Default for InstallStatus {
    fn default() -> (r: Self)
        ensures
            r == InstallStatus::Idle,
    {
        InstallStatus::Idle
    }
}

/// Progress of one installation, read by the popup.
#[derive(Debug)]
pub struct InstallState {
    pub lines: Vec<String>,
    pub status: InstallStatus,
}

/// The log as characters, and the status.
#[verifier::ext_equal]
pub struct Progress {
    pub lines: Seq<Seq<char>>,
    pub status: InstallStatus,
}

impl View for InstallState {
    type V = Progress;

    open spec fn view(&self) -> Progress {
        Progress { lines: text::views(self.lines@), status: self.status }
    }
}

impl Default for InstallState {
    fn default() -> (r: Self)
        ensures
            r@ == (Progress { lines: Seq::empty(), status: InstallStatus::Idle }),
    {
        let r = InstallState { lines: Vec::new(), status: InstallStatus::Idle };
        assert(text::views(r.lines@) =~= Seq::empty());
        r
    }
}

/// The log after one more line; the oldest line leaves a full log.
pub open spec fn logged(lines: Seq<Seq<char>>, line: Seq<char>) -> Seq<Seq<char>> {
    let all = lines.push(line);
    if all.len() > LOG_LIMIT {
        all.drop_first()
    } else {
        all
    }
}

/// The log after several more lines.
pub open spec fn logged_all(lines: Seq<Seq<char>>, more: Seq<Seq<char>>) -> Seq<Seq<char>>
    decreases more.len(),
{
    if more.len() == 0 {
        lines
    } else {
        logged(logged_all(lines, more.drop_last()), more.last())
    }
}

/// A log within its limit stays within it, and the new line is its last. Below
/// the limit every older line stays, at the limit only the oldest leaves.
pub proof fn log_stays_bounded(lines: Seq<Seq<char>>, line: Seq<char>)
    requires
        lines.len() <= LOG_LIMIT,
    ensures
        logged(lines, line).len() <= LOG_LIMIT,
        logged(lines, line).last() == line,
        lines.len() < LOG_LIMIT ==> logged(lines, line).drop_last() == lines,
        lines.len() == LOG_LIMIT ==> logged(lines, line).drop_last() == lines.drop_first(),
{
    if lines.len() < LOG_LIMIT {
        assert(logged(lines, line).drop_last() =~= lines);
    } else {
        assert(logged(lines, line).drop_last() =~= lines.drop_first());
    }
}

impl InstallState {
    pub fn is_running(&self) -> (r: bool)
        ensures
            r == (self.status == InstallStatus::Running),
    {
        self.status == InstallStatus::Running
    }

    pub fn is_finished(&self) -> (r: bool)
        ensures
            r == (self.status == InstallStatus::Done || self.status == InstallStatus::Failed),
    {
        matches!(self.status, InstallStatus::Done | InstallStatus::Failed)
    }

    pub fn succeeded(&self) -> (r: bool)
        ensures
            r == (self.status == InstallStatus::Done),
    {
        self.status == InstallStatus::Done
    }

    /// Last lines for the log view.
    pub fn tail(&self, count: usize) -> (r: Vec<String>)
        ensures
            text::views(r@) == self@.lines.skip(
                if count < self@.lines.len() {
                    self@.lines.len() - count
                } else {
                    0
                },
            ),
    {
        let n: usize = self.lines.len();
        let start: usize = if count < n {
            n - count
        } else {
            0
        };
        text::copy_from(&self.lines, start)
    }

    /// A copy with the same lines and status.
    pub fn copy(&self) -> (r: InstallState)
        ensures
            r@ == self@,
    {
        let r = InstallState { lines: text::copy_from(&self.lines, 0), status: self.status };
        assert(r@.lines =~= self@.lines);
        r
    }

    /// Appends a line to the log; the oldest line leaves a full log.
    pub fn log(&mut self, line: &str)
        ensures
            final(self)@ == (Progress { lines: logged(old(self)@.lines, line@), ..old(self)@ }),
    {
        self.lines.push(text::copy(line));
        assert(text::views(self.lines@) =~= old(self)@.lines.push(line@));
        if self.lines.len() > LOG_LIMIT {
            let ghost full = self.lines@;
            self.lines.remove(0);
            assert(text::views(self.lines@) =~= text::views(full).drop_first());
        }
    }

    fn log_all(&mut self, more: &Vec<String>)
        ensures
            final(self)@ == (Progress {
                lines: logged_all(old(self)@.lines, text::views(more@)),
                ..old(self)@
            }),
    {
        let ghost all = text::views(more@);
        let mut i: usize = 0;
        assert(all.take(0) =~= Seq::empty());
        while i < more.len()
            invariant
                i <= more@.len(),
                all == text::views(more@),
                self.status == old(self).status,
                self@.lines == logged_all(old(self)@.lines, all.take(i as int)),
            decreases more@.len() - i,
        {
            self.log(more[i].as_str());
            assert(all.take(i + 1).drop_last() =~= all.take(i as int));
            i += 1;
        }
        assert(all.take(more@.len() as int) =~= all);
    }
}

/// What to install where.
#[derive(Debug)]
pub struct InstallRequest {
    pub host: String,
    pub user: String,
    pub password: String,
    pub port: u16,
}

/// A request as characters.
pub struct Wish {
    pub host: Seq<char>,
    pub user: Seq<char>,
    pub password: Seq<char>,
    pub port: u16,
}

impl View for InstallRequest {
    type V = Wish;

    open spec fn view(&self) -> Wish {
        Wish {
            host: self.host@,
            user: self.user@,
            password: self.password@,
            port: self.port,
        }
    }
}

impl Default for InstallRequest {
    fn default() -> (r: Self)
        ensures
            r@ == (Wish {
                host: Seq::empty(),
                user: Seq::empty(),
                password: Seq::empty(),
                port: 0,
            }),
    {
        let r = InstallRequest {
            host: String::new(),
            user: String::new(),
            password: String::new(),
            port: 0,
        };
        assert(r.host@ =~= Seq::empty());
        assert(r.user@ =~= Seq::empty());
        assert(r.password@ =~= Seq::empty());
        r
    }
}

/// `user@host`.
pub open spec fn target_of(wish: Wish) -> Seq<char> {
    wish.user + "@"@ + wish.host
}

impl InstallRequest {
    pub fn target(&self) -> (r: String)
        ensures
            r@ == target_of(self@),
    {
        text::cat3(self.user.as_str(), "@", self.host.as_str())
    }
}

// ---------------------------------------------------------------- command lines

/// Arguments that every `ssh` and `scp` call gets.
pub open spec fn common_options() -> Seq<Seq<char>> {
    seq!["-o"@, "StrictHostKeyChecking=accept-new"@, "-o"@, "ConnectTimeout=10"@]
}

/// Arguments that make the client ask the askpass helper once.
pub open spec fn askpass_options() -> Seq<Seq<char>> {
    seq![
        "-o"@,
        "PreferredAuthentications=password"@,
        "-o"@,
        "PubkeyAuthentication=no"@,
        "-o"@,
        "NumberOfPasswordPrompts=1"@,
    ]
}

/// The arguments of `ssh` in front of the remote command.
pub open spec fn ssh_line(wish: Wish, askpass: bool) -> Seq<Seq<char>> {
    common_options() + seq!["-o"@, "BatchMode=no"@, "-p"@, text::decimal(wish.port as nat)] + (
    if askpass {
        askpass_options()
    } else {
        Seq::empty()
    }) + seq![target_of(wish)]
}

/// The arguments of `scp` in front of the two paths.
pub open spec fn scp_line(wish: Wish, askpass: bool) -> Seq<Seq<char>> {
    common_options() + seq!["-P"@, text::decimal(wish.port as nat)] + (if askpass {
        askpass_options()
    } else {
        Seq::empty()
    })
}

fn push_common(out: &mut Vec<String>)
    ensures
        text::views(final(out)@) == text::views(old(out)@) + common_options(),
{
    out.push(text::copy("-o"));
    out.push(text::copy("StrictHostKeyChecking=accept-new"));
    out.push(text::copy("-o"));
    out.push(text::copy("ConnectTimeout=10"));
    assert(text::views(out@) =~= text::views(old(out)@) + common_options());
}

fn push_askpass(out: &mut Vec<String>)
    ensures
        text::views(final(out)@) == text::views(old(out)@) + askpass_options(),
{
    out.push(text::copy("-o"));
    out.push(text::copy("PreferredAuthentications=password"));
    out.push(text::copy("-o"));
    out.push(text::copy("PubkeyAuthentication=no"));
    out.push(text::copy("-o"));
    out.push(text::copy("NumberOfPasswordPrompts=1"));
    assert(text::views(out@) =~= text::views(old(out)@) + askpass_options());
}

/// The arguments of `ssh` for a request; `askpass` says whether the password
/// comes from the askpass helper.
pub fn ssh_arguments(request: &InstallRequest, askpass: bool) -> (r: Vec<String>)
    ensures
        text::views(r@) == ssh_line(request@, askpass),
{
    let mut out: Vec<String> = Vec::new();
    push_common(&mut out);
    let ghost a = text::views(out@);
    out.push(text::copy("-o"));
    out.push(text::copy("BatchMode=no"));
    out.push(text::copy("-p"));
    out.push(text::from_u64(request.port as u64));
    assert(text::views(out@) =~= a + seq![
        "-o"@,
        "BatchMode=no"@,
        "-p"@,
        text::decimal(request.port as nat),
    ]);
    if askpass {
        push_askpass(&mut out);
    }
    let ghost b = text::views(out@);
    out.push(request.target());
    assert(text::views(out@) =~= b + seq![target_of(request@)]);
    assert(text::views(out@) =~= ssh_line(request@, askpass));
    out
}

/// The arguments of `scp` for a request.
pub fn scp_arguments(request: &InstallRequest, askpass: bool) -> (r: Vec<String>)
    ensures
        text::views(r@) == scp_line(request@, askpass),
{
    let mut out: Vec<String> = Vec::new();
    push_common(&mut out);
    let ghost a = text::views(out@);
    out.push(text::copy("-P"));
    out.push(text::from_u64(request.port as u64));
    assert(text::views(out@) =~= a + seq!["-P"@, text::decimal(request.port as nat)]);
    if askpass {
        push_askpass(&mut out);
    }
    assert(text::views(out@) =~= scp_line(request@, askpass));
    out
}

/// The directory on the target that receives the files.
pub const REMOTE_DIR: &'static str = "/tmp/megatron-sysmon-agent";

/// Where `scp` puts a file: `user@host:directory/name`.
pub fn upload_target(request: &InstallRequest, name: &str) -> (r: String)
    ensures
        r@ == target_of(request@) + ":"@ + REMOTE_DIR@ + "/"@ + name@,
{
    let target = request.target();
    text::cat5(target.as_str(), ":", REMOTE_DIR, "/", name)
}

/// The askpass helper prints the file that holds the password.
pub fn askpass_script(secret_path: &str) -> (r: String)
    ensures
        r@ == "#!/bin/sh\ncat "@ + secret_path@ + "\n"@,
{
    text::cat3("#!/bin/sh\ncat ", secret_path, "\n")
}

// ---------------------------------------------------------------- protocol

/// A file that is uploaded to the target.
#[derive(Debug, Clone, Copy, PartialEq, Eq, Structural)]
pub enum Payload {
    Aarch64,
    X86,
    Python,
    Unit,
    Script,
}

/// Sizes of the shipped agents in bytes.
#[derive(Debug, Clone, Copy)]
pub struct Sizes {
    pub aarch64: u64,
    pub x86: u64,
    pub python: u64,
}

/// What the caller does next.
#[derive(Debug)]
pub enum Action {
    /// Run a command on the target; the secret goes to its standard input.
    Remote { command: String, secret: Option<String> },
    /// Upload a file under this name.
    Push { payload: Payload, name: String },
    /// Wait.
    Pause { millis: u64 },
    /// Run a command on the target and ignore its outcome.
    Cleanup { command: String },
    /// The installation is over.
    End,
}

/// What came of an action.
#[derive(Debug)]
pub enum Outcome {
    /// The child process ended.
    Finished { ok: bool, stdout: Vec<u8>, stderr: Vec<u8> },
    /// The action could not be carried out at all.
    Broken { error: String },
}

/// An action as characters.
#[verifier::ext_equal]
pub enum Deed {
    Remote { command: Seq<char>, secret: Option<Seq<char>> },
    Push { payload: Payload, name: Seq<char> },
    Pause { millis: u64 },
    Cleanup { command: Seq<char> },
    End,
}

impl View for Action {
    type V = Deed;

    open spec fn view(&self) -> Deed {
        match self {
            Action::Remote { command, secret } => Deed::Remote {
                command: command@,
                secret: match secret {
                    Some(s) => Some(s@),
                    None => None,
                },
            },
            Action::Push { payload, name } => Deed::Push { payload: *payload, name: name@ },
            Action::Pause { millis } => Deed::Pause { millis: *millis },
            Action::Cleanup { command } => Deed::Cleanup { command: command@ },
            Action::End => Deed::End,
        }
    }
}

/// The action whose outcome is awaited.
#[derive(Debug, Clone, Copy, PartialEq, Eq, Structural)]
pub enum Phase {
    Probe,
    MakeDirectory,
    PushAgent,
    PushUnit,
    PushScript,
    RunScript,
    CheckService,
    Settle,
    Cleanup,
    End,
}

/// One installation: the request, its log and where the protocol stands.
#[derive(Debug)]
pub struct Installer {
    request: InstallRequest,
    state: InstallState,
    stop: bool,
    phase: Phase,
    user_service: bool,
    root: bool,
    payload: Payload,
    sizes: Sizes,
}

/// An installation as characters.
#[verifier::ext_equal]
pub struct Setup {
    pub wish: Wish,
    pub progress: Progress,
    pub stop: bool,
    pub phase: Phase,
    pub user_service: bool,
    pub root: bool,
    pub payload: Payload,
    pub sizes: Sizes,
}

impl View for Installer {
    type V = Setup;

    closed spec fn view(&self) -> Setup {
        Setup {
            wish: self.request@,
            progress: self.state@,
            stop: self.stop,
            phase: self.phase,
            user_service: self.user_service,
            root: self.root,
            payload: self.payload,
            sizes: self.sizes,
        }
    }
}

/// Asks for the architecture, the login, its id and the SELinux mode.
pub const PROBE: &'static str =
    "uname -m; id -un; id -u; (command -v getenforce >/dev/null && getenforce) || echo Disabled";

/// Reports whether the service is active and how many listeners the port has.
pub const CHECK: &'static str =
    "state=$(systemctl is-active megatron-sysmon-agent 2>/dev/null); [ \"$state\" = active ] || state=$(XDG_RUNTIME_DIR=/run/user/$(id -u) DBUS_SESSION_BUS_ADDRESS=unix:path=/run/user/$(id -u)/bus systemctl --user is-active megatron-sysmon-agent 2>/dev/null); listeners=$(ss -ltn | grep -c ':8787' || true); echo \"state=${state:-unknown} listeners=${listeners}\"";

/// Said where SELinux enforces its policy.
pub const SELINUX_NOTE: &'static str =
    "SELinux ist aktiv: der Agent wird als Benutzerdienst installiert (ein Systemdienst dürfte keine lokalen Ports verbinden).";

/// Appended where sudo refused.
pub const SUDO_HINT: &'static str =
    " (sudo braucht hier ein Passwort; bitte Benutzer mit sudo-Rechten angeben)";

/// The name under which a file is uploaded.
pub open spec fn payload_name(payload: Payload) -> Seq<char> {
    match payload {
        Payload::Aarch64 => "megatron-sysmon-agent-aarch64"@,
        Payload::X86 => "megatron-sysmon-agent-x86_64"@,
        Payload::Python => "megatron_sysmon_agent.py"@,
        Payload::Unit => "megatron-sysmon-agent.service"@,
        Payload::Script => "install-agent.sh"@,
    }
}

fn name_of(payload: Payload) -> (r: String)
    ensures
        r@ == payload_name(payload),
{
    match payload {
        Payload::Aarch64 => text::copy("megatron-sysmon-agent-aarch64"),
        Payload::X86 => text::copy("megatron-sysmon-agent-x86_64"),
        Payload::Python => text::copy("megatron_sysmon_agent.py"),
        Payload::Unit => text::copy("megatron-sysmon-agent.service"),
        Payload::Script => text::copy("install-agent.sh"),
    }
}

/// Whether the action succeeded.
pub open spec fn went_well(outcome: Outcome) -> bool {
    outcome matches Outcome::Finished { ok, .. } && ok
}

/// The output of a remote command, or why it could not run.
pub open spec fn said(outcome: Outcome) -> Seq<char> {
    match outcome {
        Outcome::Finished { stdout, stderr, .. } => text::lossy(stdout@) + text::lossy(stderr@),
        Outcome::Broken { error } => error@,
    }
}

/// Why an upload failed.
pub open spec fn upload_error(outcome: Outcome) -> Seq<char> {
    match outcome {
        Outcome::Finished { stderr, .. } => text::trimmed(text::lossy(stderr@)),
        Outcome::Broken { error } => error@,
    }
}

/// The trimmed line at an index, empty where there is none.
pub open spec fn line_at(s: Seq<char>, i: int) -> Seq<char> {
    let lines = text::line_list(s);
    if 0 <= i < lines.len() {
        text::trimmed(lines[i])
    } else {
        Seq::empty()
    }
}

/// The first lines that hold more than whitespace, trimmed.
pub open spec fn telling_lines(lines: Seq<Seq<char>>, limit: nat) -> Seq<Seq<char>>
    decreases lines.len(),
{
    if lines.len() == 0 || limit == 0 {
        Seq::empty()
    } else if text::trimmed(lines[0]).len() == 0 {
        telling_lines(lines.drop_first(), limit)
    } else {
        seq![text::trimmed(lines[0])] + telling_lines(lines.drop_first(), (limit - 1) as nat)
    }
}

/// What follows the prefix in the last word that begins with it.
pub open spec fn last_value(words: Seq<Seq<char>>, prefix: Seq<char>, otherwise: Seq<char>) -> Seq<
    char,
> {
    match text::last_rest(words, prefix) {
        Some(value) => value,
        None => otherwise,
    }
}

pub open spec fn with_lines(setup: Setup, lines: Seq<Seq<char>>) -> Setup {
    Setup { progress: Progress { lines, ..setup.progress }, ..setup }
}

/// One more line in the log.
pub open spec fn noted(setup: Setup, line: Seq<char>) -> Setup {
    with_lines(setup, logged(setup.progress.lines, line))
}

/// A line in the log changes nothing but the log.
pub proof fn logging_changes_only_the_log(setup: Setup, line: Seq<char>)
    ensures
        noted(setup, line).progress.lines == logged(setup.progress.lines, line),
        noted(setup, line).progress.status == setup.progress.status,
        noted(setup, line) == (Setup { progress: noted(setup, line).progress, ..setup }),
{
}

/// The installation ended with a status and a last line; the target is cleaned.
pub open spec fn closed_with(setup: Setup, line: Seq<char>, status: InstallStatus) -> (
    Setup,
    Deed,
) {
    (
        Setup {
            progress: Progress { lines: logged(setup.progress.lines, line), status },
            phase: Phase::Cleanup,
            ..setup
        },
        Deed::Cleanup { command: "rm -rf "@ + REMOTE_DIR@ },
    )
}

/// The installation failed.
pub open spec fn failed(setup: Setup, error: Seq<char>) -> (Setup, Deed) {
    closed_with(setup, "Fehlgeschlagen: "@ + error, InstallStatus::Failed)
}

/// Waits for the outcome of a remote command.
pub open spec fn runs(setup: Setup, phase: Phase, command: Seq<char>) -> (Setup, Deed) {
    (Setup { phase, ..setup }, Deed::Remote { command, secret: None })
}

/// Waits for the outcome of an upload.
pub open spec fn pushes(setup: Setup, phase: Phase, payload: Payload) -> (Setup, Deed) {
    (Setup { phase, ..setup }, Deed::Push { payload, name: payload_name(payload) })
}

/// The beginning: a host and a user are needed, then the target is probed.
pub open spec fn opening(wish: Wish, sizes: Sizes) -> (Setup, Deed) {
    let fresh = Setup {
        wish,
        progress: Progress { lines: Seq::empty(), status: InstallStatus::Running },
        stop: false,
        phase: Phase::Probe,
        user_service: false,
        root: false,
        payload: Payload::Python,
        sizes,
    };
    if wish.host.len() == 0 {
        failed(fresh, "Kein Hostname angegeben"@)
    } else if wish.user.len() == 0 {
        failed(fresh, "Kein Benutzername angegeben"@)
    } else {
        let connecting = noted(
            fresh,
            "Verbinde zu "@ + target_of(wish) + " (Port "@ + text::decimal(wish.port as nat)
                + ")"@,
        );
        let known = noted(
            connecting,
            "Zielversion des Agenten: "@ + text::trimmed(AGENT_VERSION@),
        );
        runs(known, Phase::Probe, PROBE@)
    }
}

/// The agent for an architecture.
pub open spec fn agent_for(architecture: Seq<char>) -> Payload {
    if architecture == "aarch64"@ {
        Payload::Aarch64
    } else if architecture == "x86_64"@ {
        Payload::X86
    } else {
        Payload::Python
    }
}

/// After the probe: choose the agent and the kind of service.
pub open spec fn probed(setup: Setup, outcome: Outcome) -> (Setup, Deed) {
    if !went_well(outcome) {
        failed(setup, said(outcome))
    } else {
        let architecture = line_at(said(outcome), 0);
        let login = line_at(said(outcome), 1);
        let uid = line_at(said(outcome), 2);
        let user_service = line_at(said(outcome), 3) == "Enforcing"@;
        let first = if user_service {
            noted(setup, SELINUX_NOTE@)
        } else {
            setup
        };
        let second = noted(
            first,
            "Verbunden als "@ + login + " ("@ + architecture + ", uid "@ + uid + ")"@,
        );
        if architecture.len() == 0 {
            failed(second, "Keine Antwort auf uname"@)
        } else if setup.stop {
            failed(second, "Abgebrochen"@)
        } else {
            let payload = agent_for(architecture);
            let third = if payload == Payload::Python {
                noted(
                    second,
                    "Hinweis: kein Rust-Binary für "@ + architecture
                        + "; es wird der Python-Agent installiert."@,
                )
            } else {
                second
            };
            let chosen = Setup { user_service, root: uid == "0"@, payload, ..third };
            runs(chosen, Phase::MakeDirectory, "mkdir -p "@ + REMOTE_DIR@)
        }
    }
}

/// The size of an agent in bytes.
pub open spec fn size_of(sizes: Sizes, payload: Payload) -> u64 {
    match payload {
        Payload::Aarch64 => sizes.aarch64,
        Payload::X86 => sizes.x86,
        _ => sizes.python,
    }
}

/// Runs the install script: as the login user, as root, or through sudo.
pub open spec fn installs(setup: Setup) -> (Setup, Deed) {
    let plain = "bash "@ + REMOTE_DIR@ + "/install-agent.sh install"@;
    if setup.user_service {
        runs(noted(setup, "Installiere Benutzerdienst …"@), Phase::RunScript, plain)
    } else if setup.root {
        runs(noted(setup, "Installiere Dienst …"@), Phase::RunScript, plain)
    } else if setup.wish.password.len() == 0 {
        runs(
            noted(setup, "Installiere Dienst (passwortloses sudo) …"@),
            Phase::RunScript,
            "sudo -n "@ + plain,
        )
    } else {
        (
            Setup {
                phase: Phase::RunScript,
                ..noted(setup, "Installiere Dienst (sudo) …"@)
            },
            Deed::Remote {
                command: "sudo -S -p '' "@ + plain,
                secret: Some(setup.wish.password),
            },
        )
    }
}

/// Why the install script failed.
pub open spec fn script_error(output: Seq<char>) -> Seq<char> {
    let lines = text::line_list(output);
    let last = if lines.len() == 0 {
        "unbekannter Fehler"@
    } else {
        lines.last()
    };
    if text::occurs(text::lowercase(output), "sudo"@) {
        last + SUDO_HINT@
    } else {
        last
    }
}

/// After the check: the service must be active.
pub open spec fn checked(setup: Setup, outcome: Outcome) -> (Setup, Deed) {
    let status = if went_well(outcome) {
        said(outcome)
    } else {
        Seq::empty()
    };
    let service = last_value(text::words(status), "state="@, "unknown"@);
    let listeners = last_value(text::words(status), "listeners="@, "0"@);
    let told = noted(
        setup,
        "Dienst: "@ + service + ", Port 8787: "@ + listeners + " Listener"@,
    );
    if service != "active"@ {
        failed(told, "Dienst ist nicht aktiv ("@ + service + ")"@)
    } else {
        (Setup { phase: Phase::Settle, ..told }, Deed::Pause { millis: 300 })
    }
}

/// The protocol: the state and the next action for an outcome.
pub open spec fn advanced(setup: Setup, outcome: Outcome) -> (Setup, Deed) {
    match setup.phase {
        Phase::Probe => probed(setup, outcome),
        Phase::MakeDirectory => if went_well(outcome) {
            pushes(
                noted(
                    setup,
                    "Übertrage Agent ("@ + payload_name(setup.payload) + ", "@ + text::decimal(
                        (size_of(setup.sizes, setup.payload) / 1024) as nat,
                    ) + " kB)"@,
                ),
                Phase::PushAgent,
                setup.payload,
            )
        } else {
            failed(setup, said(outcome))
        },
        Phase::PushAgent => if went_well(outcome) {
            pushes(setup, Phase::PushUnit, Payload::Unit)
        } else {
            failed(setup, upload_error(outcome))
        },
        Phase::PushUnit => if went_well(outcome) {
            pushes(setup, Phase::PushScript, Payload::Script)
        } else {
            failed(setup, upload_error(outcome))
        },
        Phase::PushScript => if !went_well(outcome) {
            failed(setup, upload_error(outcome))
        } else if setup.stop {
            failed(setup, "Abgebrochen"@)
        } else {
            installs(setup)
        },
        Phase::RunScript => if went_well(outcome) {
            let told = with_lines(
                setup,
                logged_all(
                    setup.progress.lines,
                    telling_lines(text::line_list(said(outcome)), 12),
                ),
            );
            runs(noted(told, "Prüfe den Dienst …"@), Phase::CheckService, CHECK@)
        } else {
            failed(setup, script_error(said(outcome)))
        },
        Phase::CheckService => checked(setup, outcome),
        Phase::Settle => closed_with(
            setup,
            "Fertig: Dienst läuft und der Knoten wird übernommen."@,
            InstallStatus::Done,
        ),
        Phase::Cleanup => (Setup { phase: Phase::End, ..setup }, Deed::End),
        Phase::End => (setup, Deed::End),
    }
}

fn passed(outcome: &Outcome) -> (r: bool)
    ensures
        r == went_well(*outcome),
{
    match outcome {
        Outcome::Finished { ok, .. } => *ok,
        Outcome::Broken { .. } => false,
    }
}

fn output_of(outcome: &Outcome) -> (r: String)
    ensures
        r@ == said(*outcome),
{
    match outcome {
        Outcome::Finished { stdout, stderr, .. } => {
            let head = text::from_bytes(stdout);
            let tail = text::from_bytes(stderr);
            text::cat2(head.as_str(), tail.as_str())
        },
        Outcome::Broken { error } => text::copy(error.as_str()),
    }
}

fn upload_error_of(outcome: &Outcome) -> (r: String)
    ensures
        r@ == upload_error(*outcome),
{
    match outcome {
        Outcome::Finished { stderr, .. } => {
            let all = text::from_bytes(stderr);
            text::trim(all.as_str())
        },
        Outcome::Broken { error } => text::copy(error.as_str()),
    }
}

fn trimmed_line(lines: &Vec<String>, i: usize) -> (r: String)
    ensures
        r@ == (if i < lines@.len() {
            text::trimmed(lines@[i as int]@)
        } else {
            Seq::empty()
        }),
{
    if i < lines.len() {
        text::trim(lines[i].as_str())
    } else {
        let r = String::new();
        assert(r@ =~= Seq::empty());
        r
    }
}

fn first_telling(lines: &Vec<String>, limit: usize) -> (r: Vec<String>)
    ensures
        text::views(r@) == telling_lines(text::views(lines@), limit as nat),
{
    let ghost all = text::views(lines@);
    let mut out: Vec<String> = Vec::new();
    let mut i: usize = 0;
    assert(all.skip(0) =~= all);
    assert(text::views(out@) =~= Seq::<Seq<char>>::empty());
    while i < lines.len() && out.len() < limit
        invariant
            i <= lines@.len(),
            out@.len() <= limit,
            all == text::views(lines@),
            telling_lines(all, limit as nat) == text::views(out@) + telling_lines(
                all.skip(i as int),
                (limit - out@.len()) as nat,
            ),
        decreases lines@.len() - i,
    {
        let ghost before = out@;
        let ghost rest = all.skip(i as int);
        assert(rest.drop_first() =~= all.skip(i + 1));
        assert(rest[0] == lines@[i as int]@);
        let line = text::trim(lines[i].as_str());
        if !text::is_empty(line.as_str()) {
            out.push(line);
            assert(text::views(out@) =~= text::views(before) + seq![text::trimmed(rest[0])]);
            assert(telling_lines(all, limit as nat) =~= text::views(out@) + telling_lines(
                all.skip(i + 1),
                (limit - out@.len()) as nat,
            ));
        }
        i += 1;
    }
    assert(telling_lines(all.skip(i as int), (limit - out@.len()) as nat) =~= Seq::empty());
    assert(text::views(out@) + Seq::empty() =~= text::views(out@));
    out
}

fn find_value(words: &Vec<String>, prefix: &str, otherwise: &str) -> (r: String)
    ensures
        r@ == last_value(text::views(words@), prefix@, otherwise@),
{
    match text::find_last_rest(words, prefix) {
        Some(value) => value,
        None => text::copy(otherwise),
    }
}

fn reads(left: &String, right: &str) -> (r: bool)
    ensures
        r == (left@ == right@),
{
    text::same(left.as_str(), right)
}

impl Installer {
    /// Begins an installation and says what to do first.
    pub fn start(request: InstallRequest, sizes: Sizes) -> (r: (Installer, Action))
        ensures
            (r.0@, r.1@) == opening(request@, sizes),
    {
        let no_host = text::is_empty(request.host.as_str());
        let no_user = text::is_empty(request.user.as_str());
        let target = request.target();
        let port = text::from_u64(request.port as u64);
        let mut this = Installer {
            request,
            state: InstallState { lines: Vec::new(), status: InstallStatus::Running },
            stop: false,
            phase: Phase::Probe,
            user_service: false,
            root: false,
            payload: Payload::Python,
            sizes,
        };
        assert(this.state@.lines =~= Seq::empty());
        if no_host {
            let action = this.fail("Kein Hostname angegeben");
            return (this, action);
        }
        if no_user {
            let action = this.fail("Kein Benutzername angegeben");
            return (this, action);
        }
        let line = text::cat5("Verbinde zu ", target.as_str(), " (Port ", port.as_str(), ")");
        this.state.log(line.as_str());
        let version = expected_agent_version();
        let line = text::cat2("Zielversion des Agenten: ", version.as_str());
        this.state.log(line.as_str());
        let action = this.remote(Phase::Probe, PROBE);
        (this, action)
    }

    /// The state for the popup.
    pub fn snapshot(&self) -> (r: InstallState)
        ensures
            r@ == self@.progress,
    {
        self.state.copy()
    }

    /// Asks the installation to stop at the next occasion.
    pub fn cancel(&mut self)
        ensures
            final(self)@ == (Setup { stop: true, ..old(self)@ }),
    {
        self.stop = true;
    }

    /// Whether a password was given, so that the askpass helper is needed.
    pub fn needs_askpass(&self) -> (r: bool)
        ensures
            r == (self@.wish.password.len() > 0),
    {
        !text::is_empty(self.request.password.as_str())
    }

    /// The request that is being carried out.
    pub fn request(&self) -> (r: &InstallRequest)
        ensures
            r@ == self@.wish,
    {
        &self.request
    }

    fn close(&mut self, line: &str, status: InstallStatus) -> (r: Action)
        ensures
            (final(self)@, r@) == closed_with(old(self)@, line@, status),
    {
        self.state.log(line);
        self.state.status = status;
        self.phase = Phase::Cleanup;
        Action::Cleanup { command: text::cat2("rm -rf ", REMOTE_DIR) }
    }

    fn fail(&mut self, error: &str) -> (r: Action)
        ensures
            (final(self)@, r@) == failed(old(self)@, error@),
    {
        let line = text::cat2("Fehlgeschlagen: ", error);
        self.close(line.as_str(), InstallStatus::Failed)
    }

    fn remote(&mut self, phase: Phase, command: &str) -> (r: Action)
        ensures
            (final(self)@, r@) == runs(old(self)@, phase, command@),
    {
        self.phase = phase;
        Action::Remote { command: text::copy(command), secret: None }
    }

    fn push(&mut self, phase: Phase, payload: Payload) -> (r: Action)
        ensures
            (final(self)@, r@) == pushes(old(self)@, phase, payload),
    {
        self.phase = phase;
        Action::Push { payload, name: name_of(payload) }
    }

    fn probed(&mut self, outcome: &Outcome) -> (r: Action)
        ensures
            (final(self)@, r@) == probed(old(self)@, *outcome),
    {
        let output = output_of(outcome);
        if !passed(outcome) {
            return self.fail(output.as_str());
        }
        let lines = text::lines(output.as_str());
        assert(lines@.len() == text::line_list(output@).len());
        let architecture = trimmed_line(&lines, 0);
        let login = trimmed_line(&lines, 1);
        let uid = trimmed_line(&lines, 2);
        let selinux = trimmed_line(&lines, 3);
        assert(architecture@ == line_at(output@, 0));
        assert(login@ == line_at(output@, 1));
        assert(uid@ == line_at(output@, 2));
        assert(selinux@ == line_at(output@, 3));
        let user_service = reads(&selinux, "Enforcing");
        if user_service {
            self.state.log(SELINUX_NOTE);
        }
        let mut line = text::cat5(
            "Verbunden als ",
            login.as_str(),
            " (",
            architecture.as_str(),
            ", uid ",
        );
        line.append(uid.as_str());
        line.append(")");
        self.state.log(line.as_str());
        if text::is_empty(architecture.as_str()) {
            return self.fail("Keine Antwort auf uname");
        }
        if self.stop {
            return self.fail("Abgebrochen");
        }
        let payload = if reads(&architecture, "aarch64") {
            Payload::Aarch64
        } else if reads(&architecture, "x86_64") {
            Payload::X86
        } else {
            Payload::Python
        };
        if payload == Payload::Python {
            let note = text::cat3(
                "Hinweis: kein Rust-Binary für ",
                architecture.as_str(),
                "; es wird der Python-Agent installiert.",
            );
            self.state.log(note.as_str());
        }
        self.user_service = user_service;
        self.root = reads(&uid, "0");
        self.payload = payload;
        let command = text::cat2("mkdir -p ", REMOTE_DIR);
        self.remote(Phase::MakeDirectory, command.as_str())
    }

    fn install(&mut self) -> (r: Action)
        ensures
            (final(self)@, r@) == installs(old(self)@),
    {
        let plain = text::cat3("bash ", REMOTE_DIR, "/install-agent.sh install");
        if self.user_service {
            self.state.log("Installiere Benutzerdienst …");
            self.remote(Phase::RunScript, plain.as_str())
        } else if self.root {
            self.state.log("Installiere Dienst …");
            self.remote(Phase::RunScript, plain.as_str())
        } else if text::is_empty(self.request.password.as_str()) {
            self.state.log("Installiere Dienst (passwortloses sudo) …");
            let command = text::cat2("sudo -n ", plain.as_str());
            self.remote(Phase::RunScript, command.as_str())
        } else {
            self.state.log("Installiere Dienst (sudo) …");
            self.phase = Phase::RunScript;
            Action::Remote {
                command: text::cat2("sudo -S -p '' ", plain.as_str()),
                secret: Some(text::copy(self.request.password.as_str())),
            }
        }
    }

    fn script_ran(&mut self, outcome: &Outcome) -> (r: Action)
        requires
            old(self)@.phase == Phase::RunScript,
        ensures
            (final(self)@, r@) == advanced(old(self)@, *outcome),
    {
        let output = output_of(outcome);
        let lines = text::lines(output.as_str());
        if passed(outcome) {
            let shown = first_telling(&lines, 12);
            self.state.log_all(&shown);
            self.state.log("Prüfe den Dienst …");
            self.remote(Phase::CheckService, CHECK)
        } else {
            let lower = text::to_lower(output.as_str());
            let n: usize = lines.len();
            let mut error = if n == 0 {
                text::copy("unbekannter Fehler")
            } else {
                text::copy(lines[n - 1].as_str())
            };
            assert(text::line_list(output@).len() == n);
            assert(n > 0 ==> text::line_list(output@).last() == lines@[n - 1]@);
            if text::contains(lower.as_str(), "sudo") {
                error.append(SUDO_HINT);
            }
            self.fail(error.as_str())
        }
    }

    fn check(&mut self, outcome: &Outcome) -> (r: Action)
        ensures
            (final(self)@, r@) == checked(old(self)@, *outcome),
    {
        let status = if passed(outcome) {
            output_of(outcome)
        } else {
            String::new()
        };
        assert(!went_well(*outcome) ==> status@ =~= Seq::empty());
        let words = text::split_words(status.as_str());
        let service = find_value(&words, "state=", "unknown");
        let listeners = find_value(&words, "listeners=", "0");
        let line = text::cat5(
            "Dienst: ",
            service.as_str(),
            ", Port 8787: ",
            listeners.as_str(),
            " Listener",
        );
        self.state.log(line.as_str());
        if !reads(&service, "active") {
            let error = text::cat3("Dienst ist nicht aktiv (", service.as_str(), ")");
            return self.fail(error.as_str());
        }
        self.phase = Phase::Settle;
        Action::Pause { millis: 300 }
    }

    /// Takes the outcome of the last action and says what to do next.
    pub fn advance(&mut self, outcome: &Outcome) -> (r: Action)
        ensures
            (final(self)@, r@) == advanced(old(self)@, *outcome),
    {
        match self.phase {
            Phase::Probe => self.probed(outcome),
            Phase::MakeDirectory => {
                if !passed(outcome) {
                    let output = output_of(outcome);
                    return self.fail(output.as_str());
                }
                let payload = self.payload;
                let bytes: u64 = match payload {
                    Payload::Aarch64 => self.sizes.aarch64,
                    Payload::X86 => self.sizes.x86,
                    _ => self.sizes.python,
                };
                let size = text::from_u64(bytes / 1024);
                let name = name_of(payload);
                let line = text::cat5(
                    "Übertrage Agent (",
                    name.as_str(),
                    ", ",
                    size.as_str(),
                    " kB)",
                );
                self.state.log(line.as_str());
                self.push(Phase::PushAgent, payload)
            },
            Phase::PushAgent => {
                if !passed(outcome) {
                    let error = upload_error_of(outcome);
                    return self.fail(error.as_str());
                }
                self.push(Phase::PushUnit, Payload::Unit)
            },
            Phase::PushUnit => {
                if !passed(outcome) {
                    let error = upload_error_of(outcome);
                    return self.fail(error.as_str());
                }
                self.push(Phase::PushScript, Payload::Script)
            },
            Phase::PushScript => {
                if !passed(outcome) {
                    let error = upload_error_of(outcome);
                    return self.fail(error.as_str());
                }
                if self.stop {
                    return self.fail("Abgebrochen");
                }
                self.install()
            },
            Phase::RunScript => self.script_ran(outcome),
            Phase::CheckService => self.check(outcome),
            Phase::Settle => self.close(
                "Fertig: Dienst läuft und der Knoten wird übernommen.",
                InstallStatus::Done,
            ),
            Phase::Cleanup => {
                self.phase = Phase::End;
                Action::End
            },
            Phase::End => Action::End,
        }
    }
}

/// The exit code of the command line mode.
pub fn exit_code(state: &InstallState) -> (r: i32)
    ensures
        r == (if state.status == InstallStatus::Done {
            0i32
        } else {
            1i32
        }),
{
    if state.succeeded() {
        0
    } else {
        1
    }
}

// ---------------------------------------------------------------- laws

/// The same setup for another password.
pub open spec fn with_password(setup: Setup, password: Seq<char>) -> Setup {
    Setup { wish: Wish { password, ..setup.wish }, ..setup }
}

/// The deed without the secret for the standard input.
pub open spec fn open_part(deed: Deed) -> Deed {
    match deed {
        Deed::Remote { command, .. } => Deed::Remote { command, secret: None },
        other => other,
    }
}

spec fn twins(here: (Setup, Deed), there: (Setup, Deed), password: Seq<char>) -> bool {
    there.0 == with_password(here.0, password) && open_part(there.1) == open_part(here.1)
}

proof fn lemma_probed_twins(setup: Setup, password: Seq<char>, outcome: Outcome)
    ensures
        twins(probed(setup, outcome), probed(with_password(setup, password), outcome), password),
{
}

proof fn lemma_installs_twins(setup: Setup, password: Seq<char>)
    requires
        setup.wish.password.len() > 0,
        password.len() > 0,
    ensures
        twins(installs(setup), installs(with_password(setup, password)), password),
{
}

proof fn lemma_checked_twins(setup: Setup, password: Seq<char>, outcome: Outcome)
    ensures
        twins(checked(setup, outcome), checked(with_password(setup, password), outcome), password),
{
}

proof fn lemma_advanced_twins(setup: Setup, password: Seq<char>, outcome: Outcome)
    requires
        setup.wish.password.len() > 0,
        password.len() > 0,
    ensures
        twins(
            advanced(setup, outcome),
            advanced(with_password(setup, password), outcome),
            password,
        ),
{
    match setup.phase {
        Phase::Probe => lemma_probed_twins(setup, password, outcome),
        Phase::PushScript => lemma_installs_twins(setup, password),
        Phase::CheckService => lemma_checked_twins(setup, password, outcome),
        _ => {},
    }
}

/// Which password was given shows in no command line, no file name and no line
/// of the log: another password leaves all of them as they are.
pub proof fn passwords_stay_out_of_sight(
    setup: Setup,
    password: Seq<char>,
    outcome: Outcome,
    askpass: bool,
)
    requires
        setup.wish.password.len() > 0,
        password.len() > 0,
    ensures
        ({
            let other = with_password(setup, password);
            let (here, deed) = advanced(setup, outcome);
            let (there, twin) = advanced(other, outcome);
            &&& there == with_password(here, password)
            &&& there.progress == here.progress
            &&& open_part(twin) == open_part(deed)
            &&& ssh_line(other.wish, askpass) == ssh_line(setup.wish, askpass)
            &&& scp_line(other.wish, askpass) == scp_line(setup.wish, askpass)
        }),
        ({
            let (here, deed) = opening(setup.wish, setup.sizes);
            let (there, twin) = opening(with_password(setup, password).wish, setup.sizes);
            there.progress == here.progress && twin == deed
        }),
{
    lemma_advanced_twins(setup, password, outcome);
    assert(target_of(with_password(setup, password).wish) == target_of(setup.wish));
}

/// A whole run: the setup at its end and the deeds in order, the first of them
/// from the beginning and one more for each reply. A reply says whether the
/// installation was asked to stop while its outcome was awaited.
pub open spec fn ran(wish: Wish, sizes: Sizes, replies: Seq<(bool, Outcome)>) -> (Setup, Seq<Deed>)
    decreases replies.len(),
{
    if replies.len() == 0 {
        let (setup, deed) = opening(wish, sizes);
        (setup, seq![deed])
    } else {
        let (before, done) = ran(wish, sizes, replies.drop_last());
        let (stop, outcome) = replies.last();
        let (setup, deed) = advanced(Setup { stop: before.stop || stop, ..before }, outcome);
        (setup, done.push(deed))
    }
}

/// Two runs that differ in the password alone, and get the same replies, do the
/// same: the same command lines for ssh and scp, the same remote commands and
/// file names, the same log and the same result. Only the secrets for the
/// standard input may differ.
pub proof fn runs_do_not_show_the_password(
    wish: Wish,
    password: Seq<char>,
    sizes: Sizes,
    replies: Seq<(bool, Outcome)>,
)
    requires
        wish.password.len() > 0,
        password.len() > 0,
    ensures
        ({
            let other = Wish { password, ..wish };
            let (here, done) = ran(wish, sizes, replies);
            let (there, twin) = ran(other, sizes, replies);
            &&& here.wish == wish
            &&& there == with_password(here, password)
            &&& there.progress == here.progress
            &&& twin.map_values(|d: Deed| open_part(d)) == done.map_values(|d: Deed| open_part(d))
            &&& forall|askpass: bool| #[trigger]
                ssh_line(other, askpass) == ssh_line(wish, askpass)
            &&& forall|askpass: bool| #[trigger]
                scp_line(other, askpass) == scp_line(wish, askpass)
        }),
    decreases replies.len(),
{
    let other = Wish { password, ..wish };
    assert(target_of(other) == target_of(wish));
    if replies.len() > 0 {
        let shorter = replies.drop_last();
        runs_do_not_show_the_password(wish, password, sizes, shorter);
        let (before, done) = ran(wish, sizes, shorter);
        let (twin_before, twin) = ran(other, sizes, shorter);
        let (stop, outcome) = replies.last();
        let asked = Setup { stop: before.stop || stop, ..before };
        lemma_advanced_twins(asked, password, outcome);
        lemma_wish_stays(asked, outcome);
        assert((Setup { stop: twin_before.stop || stop, ..twin_before }) == with_password(
            asked,
            password,
        ));
        let deed = advanced(asked, outcome).1;
        let twin_deed = advanced(with_password(asked, password), outcome).1;
        let shown = |d: Deed| open_part(d);
        assert(done.push(deed).map_values(shown) =~= done.map_values(shown).push(open_part(deed)));
        assert(twin.push(twin_deed).map_values(shown) =~= twin.map_values(shown).push(
            open_part(twin_deed),
        ));
    }
}

proof fn lemma_wish_stays(setup: Setup, outcome: Outcome)
    ensures
        advanced(setup, outcome).0.wish == setup.wish,
{
}

/// A secret is only ever handed to sudo, and it is the password.
pub proof fn secrets_are_for_sudo(setup: Setup, outcome: Outcome)
    ensures
        advanced(setup, outcome).1 matches Deed::Remote { command, secret: Some(secret) } ==> {
            &&& secret == setup.wish.password
            &&& text::begins(command, "sudo -S -p '' "@)
        },
{
    let plain = "bash "@ + REMOTE_DIR@ + "/install-agent.sh install"@;
    let sudo = "sudo -S -p '' "@;
    assert((sudo + plain).take(sudo.len() as int) =~= sudo);
}

/// Once the service check has passed the installation succeeds, and only
/// there: no other step ends with the status `Done`.
pub proof fn only_an_active_service_is_done(setup: Setup, outcome: Outcome)
    requires
        setup.progress.status == InstallStatus::Running,
    ensures
        advanced(setup, outcome).0.progress.status == InstallStatus::Done <==> setup.phase
            == Phase::Settle,
        advanced(setup, outcome).0.phase == Phase::Settle ==> setup.phase == Phase::CheckService
            && last_value(text::words(said(outcome)), "state="@, "unknown"@) == "active"@,
{
    if setup.phase == Phase::CheckService && !went_well(outcome) {
        assert(text::words(Seq::<char>::empty()) =~= Seq::empty());
        assert(last_value(Seq::empty(), "state="@, "unknown"@) == "unknown"@);
        reveal_strlit("unknown");
        reveal_strlit("active");
        assert("unknown"@.len() == 7 && "active"@.len() == 6);
    }
}

/// Every log line that a step adds keeps the log within its limit.
pub proof fn steps_keep_the_log_bounded(setup: Setup, outcome: Outcome)
    requires
        setup.progress.lines.len() <= LOG_LIMIT,
    ensures
        advanced(setup, outcome).0.progress.lines.len() <= LOG_LIMIT,
{
    let more = telling_lines(text::line_list(said(outcome)), 12);
    lemma_logged_all_bounded(setup.progress.lines, more);
}

proof fn lemma_logged_all_bounded(lines: Seq<Seq<char>>, more: Seq<Seq<char>>)
    requires
        lines.len() <= LOG_LIMIT,
    ensures
        logged_all(lines, more).len() <= LOG_LIMIT,
    decreases more.len(),
{
    if more.len() > 0 {
        lemma_logged_all_bounded(lines, more.drop_last());
    }
}

/// The agent that is uploaded fits the node: the first line of the probe says
/// `aarch64` or `x86_64` and the binary of that name follows; on any other
/// architecture it is the Python agent.
pub proof fn the_agent_fits_the_node(setup: Setup, probe: Outcome, made: Outcome)
    requires
        setup.phase == Phase::Probe,
        !setup.stop,
        went_well(probe),
        went_well(made),
        text::line_list(said(probe)).len() > 0,
        text::trimmed(text::line_list(said(probe))[0]).len() > 0,
    ensures
        ({
            let architecture = text::trimmed(text::line_list(said(probe))[0]);
            let (chosen, first) = advanced(setup, probe);
            let (pushing, second) = advanced(chosen, made);
            &&& first == Deed::Remote {
                command: "mkdir -p /tmp/megatron-sysmon-agent"@,
                secret: None,
            }
            &&& architecture == "aarch64"@ ==> chosen.payload == Payload::Aarch64
            &&& architecture == "x86_64"@ ==> chosen.payload == Payload::X86
            &&& architecture != "aarch64"@ && architecture != "x86_64"@ ==> chosen.payload
                == Payload::Python
            &&& second matches Deed::Push { payload, name } && payload == chosen.payload && name == (
            if architecture == "aarch64"@ || architecture == "x86_64"@ {
                "megatron-sysmon-agent-"@ + architecture
            } else {
                "megatron_sysmon_agent.py"@
            })
        }),
{
    reveal_strlit("mkdir -p /tmp/megatron-sysmon-agent");
    reveal_strlit("mkdir -p ");
    reveal_strlit("/tmp/megatron-sysmon-agent");
    assert("mkdir -p "@ + REMOTE_DIR@ =~= "mkdir -p /tmp/megatron-sysmon-agent"@);
    reveal_strlit("aarch64");
    reveal_strlit("x86_64");
    reveal_strlit("megatron-sysmon-agent-");
    reveal_strlit("megatron-sysmon-agent-aarch64");
    reveal_strlit("megatron-sysmon-agent-x86_64");
    assert("aarch64"@.len() == 7 && "x86_64"@.len() == 6);
    assert("megatron-sysmon-agent-"@ + "aarch64"@ =~= "megatron-sysmon-agent-aarch64"@);
    assert("megatron-sysmon-agent-"@ + "x86_64"@ =~= "megatron-sysmon-agent-x86_64"@);
}

/// The probe decides on the kind of service: a user service where SELinux
/// enforces its policy, and no sudo where the login is root.
pub proof fn the_probe_decides_on_the_service(setup: Setup, probe: Outcome)
    requires
        setup.phase == Phase::Probe,
        !setup.stop,
        went_well(probe),
        text::line_list(said(probe)).len() >= 4,
        text::trimmed(text::line_list(said(probe))[0]).len() > 0,
    ensures
        ({
            let lines = text::line_list(said(probe));
            let chosen = advanced(setup, probe).0;
            &&& chosen.user_service <==> text::trimmed(lines[3]) == "Enforcing"@
            &&& chosen.root <==> text::trimmed(lines[2]) == "0"@
            &&& chosen.wish == setup.wish
            &&& chosen.progress.status == setup.progress.status
        }),
{
}

/// The script runs as it is for a user service and for root. For anyone else it
/// runs through sudo, with the password on the standard input where there is one.
pub proof fn sudo_is_used_where_it_is_needed(setup: Setup, pushed: Outcome)
    requires
        setup.phase == Phase::PushScript,
        !setup.stop,
        went_well(pushed),
    ensures
        ({
            let plain = "bash /tmp/megatron-sysmon-agent/install-agent.sh install"@;
            let own = setup.user_service || setup.root;
            let password = setup.wish.password;
            let (running, deed) = advanced(setup, pushed);
            &&& running.phase == Phase::RunScript
            &&& own ==> deed == Deed::Remote { command: plain, secret: None }
            &&& !own && password.len() == 0 ==> deed == Deed::Remote {
                command: "sudo -n "@ + plain,
                secret: None,
            }
            &&& !own && password.len() > 0 ==> deed == Deed::Remote {
                command: "sudo -S -p '' "@ + plain,
                secret: Some(password),
            }
        }),
{
    reveal_strlit("bash /tmp/megatron-sysmon-agent/install-agent.sh install");
    reveal_strlit("bash ");
    reveal_strlit("/tmp/megatron-sysmon-agent");
    reveal_strlit("/install-agent.sh install");
    assert("bash "@ + REMOTE_DIR@ + "/install-agent.sh install"@
        =~= "bash /tmp/megatron-sysmon-agent/install-agent.sh install"@);
}

/// As long as every step succeeds, the agent, its unit and the install script
/// are uploaded in this order, the script runs, the service is checked and given
/// time, and the directory on the target is removed.
pub proof fn installations_go_step_by_step(setup: Setup, outcome: Outcome)
    requires
        went_well(outcome),
        !setup.stop,
    ensures
        ({
            let (after, deed) = advanced(setup, outcome);
            let clean = Deed::Cleanup { command: "rm -rf /tmp/megatron-sysmon-agent"@ };
            &&& setup.phase == Phase::MakeDirectory ==> after.phase == Phase::PushAgent
            &&& setup.phase == Phase::PushAgent ==> after.phase == Phase::PushUnit && deed
                == Deed::Push { payload: Payload::Unit, name: "megatron-sysmon-agent.service"@ }
            &&& setup.phase == Phase::PushUnit ==> after.phase == Phase::PushScript && deed
                == Deed::Push { payload: Payload::Script, name: "install-agent.sh"@ }
            &&& setup.phase == Phase::PushScript ==> after.phase == Phase::RunScript
            &&& setup.phase == Phase::RunScript ==> after.phase == Phase::CheckService && deed
                == Deed::Remote { command: CHECK@, secret: None }
            &&& setup.phase == Phase::Settle ==> after.phase == Phase::Cleanup && deed == clean
                && after.progress.status == InstallStatus::Done
            &&& setup.phase == Phase::Cleanup || setup.phase == Phase::End ==> after == (Setup {
                phase: Phase::End,
                ..setup
            }) && deed == Deed::End
        }),
{
    lemma_cleanup();
}

proof fn lemma_cleanup()
    ensures
        "rm -rf "@ + REMOTE_DIR@ == "rm -rf /tmp/megatron-sysmon-agent"@,
{
    reveal_strlit("rm -rf ");
    reveal_strlit("/tmp/megatron-sysmon-agent");
    reveal_strlit("rm -rf /tmp/megatron-sysmon-agent");
    assert("rm -rf "@ + REMOTE_DIR@ =~= "rm -rf /tmp/megatron-sysmon-agent"@);
}

/// A step that fails ends the installation: the last line of the log tells it,
/// the status is `Failed`, and only the directory on the target is still removed.
/// So does a request to stop, before the first upload and before the script runs.
pub proof fn failures_end_the_installation(setup: Setup, outcome: Outcome)
    requires
        setup.phase != Phase::Settle,
        setup.phase != Phase::Cleanup,
        setup.phase != Phase::End,
        !went_well(outcome) || setup.stop && (setup.phase == Phase::Probe || setup.phase
            == Phase::PushScript),
    ensures
        ({
            let (after, deed) = advanced(setup, outcome);
            &&& after.progress.status == InstallStatus::Failed
            &&& after.phase == Phase::Cleanup
            &&& deed == Deed::Cleanup { command: "rm -rf /tmp/megatron-sysmon-agent"@ }
            &&& after.progress.lines.len() > 0
            &&& text::begins(after.progress.lines.last(), "Fehlgeschlagen: "@)
        }),
{
    lemma_cleanup();
    let (after, deed) = advanced(setup, outcome);
    let error = after.progress.lines.last();
    reveal_strlit("Fehlgeschlagen: ");
    let prefix = "Fehlgeschlagen: "@;
    assert forall|e: Seq<char>| text::begins(#[trigger] (prefix + e), prefix) by {
        assert((prefix + e).take(prefix.len() as int) =~= prefix);
    }
    if setup.phase == Phase::CheckService {
        assert(text::words(Seq::<char>::empty()) =~= Seq::empty());
        assert(last_value(Seq::empty(), "state="@, "unknown"@) == "unknown"@);
        reveal_strlit("unknown");
        reveal_strlit("active");
        assert("unknown"@.len() == 7 && "active"@.len() == 6);
    }
}

/// The service is accepted where the check says `active`, and nowhere else.
pub proof fn inactive_services_fail(setup: Setup, outcome: Outcome, words: Seq<Seq<char>>, state: Seq<char>)
    requires
        setup.phase == Phase::CheckService,
        went_well(outcome),
        text::words(said(outcome)) == words.push("state="@ + state) || text::words(said(outcome))
            == words.push("state="@ + state).push("listeners=1"@),
    ensures
        ({
            let (after, deed) = advanced(setup, outcome);
            &&& state == "active"@ <==> after.phase == Phase::Settle
            &&& state == "active"@ ==> deed == Deed::Pause { millis: 300 }
            &&& state != "active"@ <==> after.progress.status == InstallStatus::Failed
                && after.phase == Phase::Cleanup
        }),
{
    reveal_strlit("state=");
    reveal_strlit("listeners=1");
    let one = words.push("state="@ + state);
    let two = one.push("listeners=1"@);
    assert(two.drop_last() =~= one);
    assert(("state="@ + state).take(6) =~= "state="@);
    assert(("state="@ + state).skip(6) =~= state);
    assert("listeners=1"@.take(6)[0] == 'l');
    assert("state="@[0] == 's');
    assert(!text::begins("listeners=1"@, "state="@));
    assert(text::last_rest(one, "state="@) == Some(state));
    assert(text::last_rest(two, "state="@) == Some(state));
}

/// An installation needs a host and a user. It begins by telling where it
/// connects to and asking for the architecture, the login, its number and the
/// SELinux mode.
pub proof fn installations_begin_with_a_probe(wish: Wish, sizes: Sizes)
    ensures
        ({
            let (setup, deed) = opening(wish, sizes);
            &&& setup.wish == wish
            &&& !setup.stop
            &&& wish.host.len() == 0 || wish.user.len() == 0 <==> setup.progress.status
                == InstallStatus::Failed
            &&& wish.host.len() > 0 && wish.user.len() > 0 ==> {
                &&& setup.phase == Phase::Probe
                &&& setup.progress.status == InstallStatus::Running
                &&& setup.progress.lines.len() == 2
                &&& setup.progress.lines[0] == "Verbinde zu "@ + wish.user + "@"@ + wish.host
                    + " (Port "@ + text::decimal(wish.port as nat) + ")"@
                &&& deed == Deed::Remote {
                    command:
                        "uname -m; id -un; id -u; (command -v getenforce >/dev/null && getenforce) || echo Disabled"@,
                    secret: None,
                }
            }
            &&& wish.host.len() == 0 ==> setup.progress.lines == seq![
                "Fehlgeschlagen: "@ + "Kein Hostname angegeben"@,
            ]
            &&& wish.host.len() > 0 && wish.user.len() == 0 ==> setup.progress.lines == seq![
                "Fehlgeschlagen: "@ + "Kein Benutzername angegeben"@,
            ]
        }),
{
    let (setup, deed) = opening(wish, sizes);
    if wish.host.len() > 0 && wish.user.len() > 0 {
        assert(setup.progress.lines[0] =~= "Verbinde zu "@ + wish.user + "@"@ + wish.host
            + " (Port "@ + text::decimal(wish.port as nat) + ")"@);
    } else if wish.host.len() == 0 {
        assert(setup.progress.lines =~= seq!["Fehlgeschlagen: "@ + "Kein Hostname angegeben"@]);
    } else {
        assert(setup.progress.lines =~= seq!["Fehlgeschlagen: "@ + "Kein Benutzername angegeben"@]);
    }
}

/// Both clients get the port behind their own option; ssh gets the login and the
/// host last. With the askpass helper only the password is offered, and once.
pub proof fn clients_reach_the_host(wish: Wish, askpass: bool)
    ensures
        ({
            let ssh = ssh_line(wish, askpass);
            let scp = scp_line(wish, askpass);
            &&& ssh.last() == wish.user + "@"@ + wish.host
            &&& ssh[6] == "-p"@ && ssh[7] == text::decimal(wish.port as nat)
            &&& scp[4] == "-P"@ && scp[5] == text::decimal(wish.port as nat)
            &&& ssh[1] == "StrictHostKeyChecking=accept-new"@ && ssh[3] == "ConnectTimeout=10"@
            &&& scp[1] == "StrictHostKeyChecking=accept-new"@ && scp[3] == "ConnectTimeout=10"@
            &&& ssh[5] == "BatchMode=no"@
            &&& askpass ==> {
                &&& ssh.len() == 15 && scp.len() == 12
                &&& ssh[9] == "PreferredAuthentications=password"@ && scp[7]
                    == "PreferredAuthentications=password"@
                &&& ssh[11] == "PubkeyAuthentication=no"@ && scp[9] == "PubkeyAuthentication=no"@
                &&& ssh[13] == "NumberOfPasswordPrompts=1"@ && scp[11]
                    == "NumberOfPasswordPrompts=1"@
            }
            &&& !askpass ==> ssh.len() == 9 && scp.len() == 6
        }),
{
}

/// The first part in which two versions differ decides which is newer, by its
/// number; parts that are missing count as zero.
pub proof fn the_first_difference_decides(left: Seq<char>, right: Seq<char>, i: int)
    requires
        0 <= i,
        forall|j: int|
            0 <= j < i ==> #[trigger] part_at(version_parts(left), j) == part_at(
                version_parts(right),
                j,
            ),
    ensures
        part_at(version_parts(left), i) < part_at(version_parts(right), i) ==> version_order(
            left,
            right,
        ) < 0,
        part_at(version_parts(left), i) > part_at(version_parts(right), i) ==> version_order(
            left,
            right,
        ) > 0,
        i >= version_parts(left).len() && i >= version_parts(right).len() ==> version_order(
            left,
            right,
        ) == 0,
{
    lemma_difference_from(version_parts(left), version_parts(right), 0, i);
}

proof fn lemma_difference_from(a: Seq<int>, b: Seq<int>, from: int, i: int)
    requires
        0 <= from <= i,
        forall|j: int| from <= j < i ==> #[trigger] part_at(a, j) == part_at(b, j),
    ensures
        part_at(a, i) < part_at(b, i) ==> difference(a, b, from) < 0,
        part_at(a, i) > part_at(b, i) ==> difference(a, b, from) > 0,
        i >= a.len() && i >= b.len() ==> difference(a, b, from) == 0,
    decreases i - from,
{
    if from < i {
        assert(part_at(a, from) == part_at(b, from));
        lemma_difference_from(a, b, from + 1, i);
        if from >= a.len() && from >= b.len() {
            assert(part_at(a, i) == 0 && part_at(b, i) == 0);
        }
    }
}

/// An update is offered exactly to agents that report an older version; agents
/// that report none are unknown.
pub proof fn only_older_agents_are_outdated(reported: Seq<char>, expected: Seq<char>)
    ensures
        version_state(reported, expected) is Unknown <==> text::trimmed(reported).len() == 0,
        text::trimmed(reported).len() > 0 ==> {
            let order = version_order(text::trimmed(reported), text::trimmed(expected));
            &&& version_state(reported, expected) is Current <==> order == 0
            &&& version_state(reported, expected) is Outdated <==> order < 0
            &&& version_state(reported, expected) is AppletOutdated <==> order > 0
        },
{
}

/// The numbers of a version are its parts, with or without a `v` in front.
pub proof fn versions_are_their_numbers(a: u64, b: u64, c: u64)
    ensures
        ({
            let version = text::decimal(a as nat).push('.') + (text::decimal(b as nat).push('.')
                + text::decimal(c as nat));
            &&& version_parts(version) == seq![a as int, b as int, c as int]
            &&& version_parts(seq!['v'] + version) == seq![a as int, b as int, c as int]
        }),
{
    let x = text::decimal(a as nat);
    let y = text::decimal(b as nat);
    let z = text::decimal(c as nat);
    text::digits_denote_their_number(a as nat, 10);
    text::digits_denote_their_number(b as nat, 10);
    text::digits_denote_their_number(c as nat, 10);
    text::decimals_are_read_back(a as nat, u64::MAX as int);
    text::decimals_are_read_back(b as nat, u64::MAX as int);
    text::decimals_are_read_back(c as nat, u64::MAX as int);
    let tail = y.push('.') + z;
    let version = x.push('.') + tail;
    let marked = seq!['v'] + version;
    let none = Seq::<char>::empty();
    assert(none + version + none =~= version);
    assert(none + marked + none =~= marked);
    assert(version[0] == x[0]);
    assert(version.last() == z[z.len() - 1]);
    assert(marked.last() == version.last());
    assert(!text::is_white('v'));
    text::trimming_drops_the_whitespace(none, version, none);
    text::trimming_drops_the_whitespace(none, marked, none);
    assert(x[0] != 'v') by {
        assert(text::is_digit(x[0]));
    }
    assert(text::without_leading(version, 'v') == version);
    assert(marked.drop_first() =~= version);
    assert(text::without_leading(marked, 'v') == version);
    assert forall|i: int| 0 <= i < version.len() implies version[i] != '-' && version[i] != '+' by {
        if i < x.len() {
            assert(version[i] == x[i]);
        } else if i > x.len() {
            let k = i - x.len() - 1;
            assert(version[i] == tail[k]);
            if k < y.len() {
                assert(tail[k] == y[k]);
            } else if k > y.len() {
                assert(tail[k] == z[k - y.len() - 1]);
            }
        }
    }
    assert(dotted(version) =~= version);
    text::pieces_stand_between_the_marks(x, tail, '.');
    text::pieces_stand_between_the_marks(y, z, '.');
    text::pieces_stand_between_the_marks(z, z, '.');
    let parts = text::pieces(version, '.');
    assert(parts =~= seq![x, y, z]);
    assert(version_parts(version) =~= seq![a as int, b as int, c as int]);
}

/// Parts may also be separated by dashes and plus signs.
pub proof fn dashes_separate_parts(s: Seq<char>, i: int)
    requires
        0 <= i < s.len(),
    ensures
        dotted(s).len() == s.len(),
        s[i] == '-' || s[i] == '+' || s[i] == '.' ==> dotted(s)[i] == '.',
        s[i] != '-' && s[i] != '+' ==> dotted(s)[i] == s[i],
{
}

/// A script that fails is told by the last line of its output, with a hint where
/// sudo has a part in it.
pub proof fn failing_scripts_are_told(setup: Setup, outcome: Outcome)
    requires
        setup.phase == Phase::RunScript,
        !went_well(outcome),
        text::line_list(said(outcome)).len() > 0,
    ensures
        ({
            let told = advanced(setup, outcome).0.progress.lines.last();
            let last = text::line_list(said(outcome)).last();
            let sudo = text::occurs(text::lowercase(said(outcome)), "sudo"@);
            &&& !sudo ==> told == "Fehlgeschlagen: "@ + last
            &&& sudo ==> told == "Fehlgeschlagen: "@ + (last
                + " (sudo braucht hier ein Passwort; bitte Benutzer mit sudo-Rechten angeben)"@)
        }),
{
}

/// A failing step is told by what the remote side said, a failing upload by its
/// errors.
pub proof fn failures_are_told(setup: Setup, outcome: Outcome)
    requires
        !went_well(outcome),
    ensures
        ({
            let told = advanced(setup, outcome).0.progress.lines.last();
            &&& setup.phase == Phase::Probe || setup.phase == Phase::MakeDirectory ==> told
                == "Fehlgeschlagen: "@ + said(outcome)
            &&& setup.phase == Phase::PushAgent || setup.phase == Phase::PushUnit || setup.phase
                == Phase::PushScript ==> (match outcome {
                Outcome::Finished { stderr, .. } => told == "Fehlgeschlagen: "@ + text::trimmed(
                    text::lossy(stderr@),
                ),
                Outcome::Broken { error } => told == "Fehlgeschlagen: "@ + error@,
            })
        }),
{
}

/// What a step said is its output and its errors; a step that could not run says
/// why, and only a step that ended well went well.
pub proof fn outcomes_speak(ok: bool, stdout: Vec<u8>, stderr: Vec<u8>, error: String)
    ensures
        went_well(Outcome::Finished { ok, stdout, stderr }) == ok,
        !went_well(Outcome::Broken { error }),
        said(Outcome::Finished { ok, stdout, stderr }) == text::lossy(stdout@) + text::lossy(
            stderr@,
        ),
        said(Outcome::Broken { error }) == error@,
{
}

/// The log tells who is connected, and how large the agent is that follows.
pub proof fn the_log_tells_the_progress(setup: Setup, probe: Outcome, made: Outcome)
    requires
        setup.phase == Phase::Probe,
        !setup.stop,
        went_well(probe),
        went_well(made),
        text::line_list(said(probe)).len() >= 4,
        text::trimmed(text::line_list(said(probe))[0]) == "x86_64"@,
        text::trimmed(text::line_list(said(probe))[3]) != "Enforcing"@,
    ensures
        ({
            let lines = text::line_list(said(probe));
            let chosen = advanced(setup, probe).0;
            &&& chosen.progress.lines.last() == "Verbunden als "@ + text::trimmed(lines[1]) + " ("@
                + "x86_64"@ + ", uid "@ + text::trimmed(lines[2]) + ")"@
            &&& advanced(chosen, made).0.progress.lines.last() == "Übertrage Agent ("@
                + "megatron-sysmon-agent-x86_64"@ + ", "@ + text::decimal(
                (setup.sizes.x86 / 1024) as nat,
            ) + " kB)"@
        }),
{
    reveal_strlit("aarch64");
    reveal_strlit("x86_64");
    assert("aarch64"@.len() == 7 && "x86_64"@.len() == 6);
}

/// Of the output of the script at most so many lines are kept, trimmed and in
/// order, and none that is empty.
pub proof fn telling_lines_are_kept(lines: Seq<Seq<char>>, line: Seq<char>, limit: nat)
    ensures
        telling_lines(lines, limit).len() <= limit,
        telling_lines(lines, 0).len() == 0,
        telling_lines(Seq::empty(), limit).len() == 0,
        limit > 0 && text::trimmed(line).len() > 0 ==> telling_lines(seq![line] + lines, limit)
            == seq![text::trimmed(line)] + telling_lines(lines, (limit - 1) as nat),
        text::trimmed(line).len() == 0 ==> telling_lines(seq![line] + lines, limit)
            == telling_lines(lines, limit),
    decreases lines.len(),
{
    let all = seq![line] + lines;
    assert(all.drop_first() =~= lines);
    assert(all[0] == line);
    if lines.len() > 0 && limit > 0 {
        telling_lines_are_kept(lines.drop_first(), line, limit);
        telling_lines_are_kept(lines.drop_first(), line, (limit - 1) as nat);
    }
    if limit == 0 {
        assert(telling_lines(all, limit) =~= telling_lines(lines, limit));
    }
}

/// Several lines are logged one after the other.
pub proof fn lines_are_logged_in_order(lines: Seq<Seq<char>>, more: Seq<Seq<char>>, line: Seq<char>)
    ensures
        logged_all(lines, Seq::empty()) == lines,
        logged_all(lines, more.push(line)) == logged(logged_all(lines, more), line),
{
    assert(more.push(line).drop_last() =~= more);
}

/// The log holds the last 400 lines: up to there a line is added at the end, and
/// from there on the oldest leaves for it.
pub proof fn the_log_keeps_the_last_lines(lines: Seq<Seq<char>>, line: Seq<char>)
    requires
        lines.len() <= 400,
    ensures
        lines.len() < 400 ==> logged(lines, line) == lines.push(line),
        lines.len() == 400 ==> logged(lines, line) == lines.skip(1).push(line),
{
    if lines.len() == 400 {
        assert(lines.push(line).drop_first() =~= lines.skip(1).push(line));
    }
}

/// The agent that is installed calls itself what the panel expects: version 2.2.0.
pub proof fn the_installed_agent_is_current()
    ensures
        text::trimmed(AGENT_VERSION@) == "2.2.0"@,
        crate::agent::VERSION@ == "2.2.0"@,
        REMOTE_DIR@ == "/tmp/megatron-sysmon-agent"@,
{
    reveal_strlit("2.2.0\n");
    reveal_strlit("2.2.0");
    assert(AGENT_VERSION@ =~= Seq::empty() + "2.2.0"@ + seq!['\n']);
    text::trimming_drops_the_whitespace(Seq::empty(), "2.2.0"@, seq!['\n']);
}

} // verus!
