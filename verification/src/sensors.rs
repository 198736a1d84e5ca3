//! The machine's own values: processor, memory, power and the history of the
//! last hour.
//!
//! Fractions are single-precision bits throughout.
use crate::ieee;
use crate::text;
use std::collections::VecDeque;
use vstd::prelude::*;

verus! {

/// Number of samples kept: one hour at 1 Hz.
pub const HISTORY_LEN: usize = 3600;

/// One snapshot of every monitored value.
#[derive(Debug, Clone, Copy)]
pub struct Sample {
    /// Total CPU utilization in percent.
    pub cpu_load: u32,
    /// Used memory in GiB (total minus available).
    pub mem_used: u32,
    /// Installed memory in GiB.
    pub mem_total: u32,
    /// Used VRAM of the primary GPU in GiB.
    pub vram_used: u32,
    /// Total VRAM of the primary GPU in GiB.
    pub vram_total: u32,
    /// Graphics engine utilization of the primary GPU in percent.
    pub gpu_load: u32,
    /// CPU package power in watts, zero when unavailable.
    pub cpu_watts: u32,
    /// Whether `cpu_watts` holds a measured value.
    pub cpu_watts_available: bool,
    /// Sum of all AMD GPU board powers in watts.
    pub gpu_watts: u32,
}

impl Default for Sample {
    fn default() -> (r: Self)
        ensures
            r == no_sample(),
    {
        Sample {
            cpu_load: 0,
            mem_used: 0,
            mem_total: 0,
            vram_used: 0,
            vram_total: 0,
            gpu_load: 0,
            cpu_watts: 0,
            cpu_watts_available: false,
            gpu_watts: 0,
        }
    }
}

/// A sample in which everything is zero.
pub open spec fn no_sample() -> Sample {
    Sample {
        cpu_load: 0,
        mem_used: 0,
        mem_total: 0,
        vram_used: 0,
        vram_total: 0,
        gpu_load: 0,
        cpu_watts: 0,
        cpu_watts_available: false,
        gpu_watts: 0,
    }
}

// ---------------------------------------------------------------- reading

/// The number at the beginning of a text, or zero.
pub open spec fn first_number(value: Seq<char>) -> int {
    let words = text::words(value);
    if words.len() == 0 {
        0
    } else {
        match text::unsigned_literal(words[0], 10, u64::MAX as int) {
            Some(n) => n,
            None => 0,
        }
    }
}

pub fn parse_first_number(value: &str) -> (r: u64)
    ensures
        r == first_number(value@),
{
    let words = text::split_words(value);
    assert(text::words(value@).len() == words@.len());
    if words.len() == 0 {
        return 0;
    }
    assert(text::words(value@)[0] == words@[0]@);
    match text::parse_u64(words[0].as_str()) {
        Some(n) => n,
        None => 0,
    }
}

/// The number that a file holds.
pub fn whole_number(content: &str) -> (r: Option<u64>)
    ensures
        r matches Some(n) ==> text::unsigned_literal(text::trimmed(content@), 10, u64::MAX as int)
            == Some(n as int),
        r is None ==> text::unsigned_literal(text::trimmed(content@), 10, u64::MAX as int) is None,
{
    let trimmed = text::trim(content);
    text::parse_u64(trimmed.as_str())
}

/// The numbers among a list of words.
pub open spec fn numbers_in(words: Seq<Seq<char>>) -> Seq<u64>
    decreases words.len(),
{
    if words.len() == 0 {
        Seq::empty()
    } else {
        let before = numbers_in(words.drop_last());
        match text::unsigned_literal(words.last(), 10, u64::MAX as int) {
            Some(n) => before.push(n as u64),
            None => before,
        }
    }
}

/// The sum of the first `k` numbers of a list.
pub open spec fn sum_of(list: Seq<u64>, k: nat) -> nat
    decreases k,
{
    if k == 0 {
        0
    } else {
        sum_of(list, (k - 1) as nat) + (if k <= list.len() {
            list[k - 1] as nat
        } else {
            0
        })
    }
}

/// The processor's counters in `/proc/stat`: all time, and idle time. Fewer than
/// five of them say nothing.
pub open spec fn cpu_times_in(stat: Seq<char>) -> Option<(nat, nat)> {
    let lines = text::line_list(stat);
    if lines.len() == 0 {
        None
    } else {
        let words = text::words(lines[0]);
        let list = numbers_in(words.skip(if words.len() > 0 {
            1int
        } else {
            0int
        }));
        if list.len() < 5 {
            None
        } else {
            Some((sum_of(list, 8), list[3] as nat + list[4] as nat))
        }
    }
}

fn read_numbers(words: &Vec<String>, from: usize) -> (r: Vec<u64>)
    requires
        from <= words@.len(),
    ensures
        r@ == numbers_in(text::views(words@).skip(from as int)),
{
    let ghost all = text::views(words@).skip(from as int);
    let mut out: Vec<u64> = Vec::new();
    let mut i: usize = from;
    assert(all.take(0) =~= Seq::empty());
    while i < words.len()
        invariant
            from <= i <= words@.len(),
            all == text::views(words@).skip(from as int),
            out@ == numbers_in(all.take(i - from)),
        decreases words@.len() - i,
    {
        assert(all.take(i - from + 1).drop_last() =~= all.take(i - from));
        assert(all.take(i - from + 1).last() == words@[i as int]@);
        if let Some(n) = text::parse_u64(words[i].as_str()) {
            out.push(n);
        }
        i += 1;
    }
    assert(all.take(all.len() as int) =~= all);
    out
}

fn total_of(list: &Vec<u64>) -> (r: u128)
    ensures
        r == sum_of(list@, 8),
{
    let mut total: u128 = 0;
    let mut i: usize = 0;
    while i < 8
        invariant
            i <= 8,
            total == sum_of(list@, i as nat),
            total <= i * 0xFFFF_FFFF_FFFF_FFFF,
        decreases 8 - i,
    {
        if i < list.len() {
            total = total + list[i] as u128;
        }
        i += 1;
    }
    total
}

/// Reads the processor's counters from `/proc/stat`.
pub fn cpu_times(stat: &str) -> (r: Option<(u128, u128)>)
    ensures
        r matches Some((total, idle)) ==> cpu_times_in(stat@) == Some((total as nat, idle as nat)),
        r is None ==> cpu_times_in(stat@) is None,
{
    let lines = text::lines(stat);
    assert(text::line_list(stat@).len() == lines@.len());
    if lines.len() == 0 {
        return None;
    }
    assert(text::line_list(stat@)[0] == lines@[0]@);
    let words = text::split_words(lines[0].as_str());
    assert(text::words(lines@[0]@).len() == words@.len());
    let from: usize = if words.len() > 0 {
        1
    } else {
        0
    };
    let list = read_numbers(&words, from);
    if list.len() < 5 {
        return None;
    }
    let total: u128 = total_of(&list);
    let idle: u128 = list[3] as u128 + list[4] as u128;
    Some((total, idle))
}

/// The number behind a name in the last line of a file that begins with it.
pub open spec fn field_in(lines: Seq<Seq<char>>, name: Seq<char>) -> int
    decreases lines.len(),
{
    if lines.len() == 0 {
        0
    } else if text::begins(lines.last(), name) {
        first_number(lines.last().skip(name.len() as int))
    } else {
        field_in(lines.drop_last(), name)
    }
}

fn read_field(lines: &Vec<String>, name: &str) -> (r: u64)
    ensures
        r == field_in(text::views(lines@), name@),
{
    let ghost all = text::views(lines@);
    let mut i: usize = lines.len();
    assert(all.take(all.len() as int) =~= all);
    while i > 0
        invariant
            i <= lines@.len(),
            all == text::views(lines@),
            field_in(all, name@) == field_in(all.take(i as int), name@),
        decreases i,
    {
        assert(all.take(i as int).last() == lines@[i - 1]@);
        assert(all.take(i as int).drop_last() =~= all.take(i - 1));
        if let Some(value) = text::strip_prefix(lines[i - 1].as_str(), name) {
            return parse_first_number(value.as_str());
        }
        i -= 1;
    }
    0
}

/// Used and installed memory in KiB, from `/proc/meminfo`.
pub open spec fn memory_in(meminfo: Seq<char>) -> (int, int) {
    let lines = text::line_list(meminfo);
    let total = field_in(lines, "MemTotal:"@);
    let available = field_in(lines, "MemAvailable:"@);
    (if total >= available {
        total - available
    } else {
        0
    }, total)
}

/// Used and installed memory in KiB; empty text where it could not be read.
pub fn read_memory(meminfo: &str) -> (r: (u64, u64))
    ensures
        (r.0 as int, r.1 as int) == memory_in(meminfo@),
{
    let lines = text::lines(meminfo);
    let total: u64 = read_field(&lines, "MemTotal:");
    let available: u64 = read_field(&lines, "MemAvailable:");
    let used: u64 = if total >= available {
        total - available
    } else {
        0
    };
    (used, total)
}

// ---------------------------------------------------------------- devices

/// Whether an entry of `/sys/class/drm` is a card: `card` and its number.
pub open spec fn is_card_name(name: Seq<char>) -> bool {
    let index = name.skip("card"@.len() as int);
    text::begins(name, "card"@) && index.len() > 0 && text::all_digits(index)
}

pub fn is_card(name: &str) -> (r: bool)
    ensures
        r == is_card_name(name@),
{
    match text::strip_prefix(name, "card") {
        Some(index) => !text::is_empty(index.as_str()) && text::only_digits(index.as_str()),
        None => false,
    }
}

/// Whether a card is driven by amdgpu, by its `uevent`.
pub fn is_amdgpu(uevent: &str) -> (r: bool)
    ensures
        r == text::occurs(uevent@, "DRIVER=amdgpu"@),
{
    text::contains(uevent, "DRIVER=amdgpu")
}

/// Whether a sensor belongs to amdgpu, by its name.
pub fn is_amdgpu_sensor(name: &str) -> (r: bool)
    ensures
        r == (text::trimmed(name@) == "amdgpu"@),
{
    let trimmed = text::trim(name);
    text::same(trimmed.as_str(), "amdgpu")
}

/// How often a character occurs.
pub open spec fn count_of(s: Seq<char>, c: char) -> nat
    decreases s.len(),
{
    if s.len() == 0 {
        0
    } else {
        count_of(s.drop_last(), c) + (if s.last() == c {
            1nat
        } else {
            0nat
        })
    }
}

/// Whether an energy domain is a whole package: `intel-rapl` is the container,
/// `intel-rapl:0` a package and `intel-rapl:0:0` a part of one; its label says
/// so, too.
pub fn is_package(name: &str, label: &str) -> (r: bool)
    ensures
        r == (count_of(name@, ':') == 1 && text::begins(text::trimmed(label@), "package"@)),
{
    let chars = text::chars_of(name);
    let n: usize = chars.len();
    let mut count: usize = 0;
    let mut i: usize = 0;
    assert(chars@.take(0) =~= Seq::empty());
    while i < n
        invariant
            count <= i <= n == chars@.len(),
            chars@ == name@,
            count == count_of(chars@.take(i as int), ':'),
        decreases n - i,
    {
        assert(chars@.take(i + 1).drop_last() =~= chars@.take(i as int));
        assert(chars@.take(i + 1).last() == chars@[i as int]);
        if chars[i] == ':' {
            count += 1;
        }
        i += 1;
    }
    assert(chars@.take(n as int) =~= name@);
    let trimmed = text::trim(label);
    count == 1 && text::starts_with(trimmed.as_str(), "package")
}

/// The GPU with the most memory; of several, the last one.
pub open spec fn primary_of(memory: Seq<u32>) -> int
    decreases memory.len(),
{
    if memory.len() <= 1 {
        0
    } else {
        let best = primary_of(memory.drop_last());
        if ieee::below(memory.last(), memory[best]) {
            best
        } else {
            memory.len() - 1
        }
    }
}

/// The primary GPU is one of the GPUs.
pub proof fn the_primary_gpu_exists(memory: Seq<u32>)
    ensures
        0 <= primary_of(memory),
        memory.len() > 0 ==> primary_of(memory) < memory.len(),
    decreases memory.len(),
{
    if memory.len() > 1 {
        the_primary_gpu_exists(memory.drop_last());
    }
}

pub fn primary_gpu(memory: &Vec<u32>) -> (r: usize)
    ensures
        r == primary_of(memory@),
{
    let n: usize = memory.len();
    if n <= 1 {
        return 0;
    }
    let mut best: usize = 0;
    let mut i: usize = 1;
    while i < n
        invariant
            1 <= i <= n == memory@.len(),
            best < i,
            best == primary_of(memory@.take(i as int)),
        decreases n - i,
    {
        let ghost part = memory@.take(i + 1);
        assert(part.drop_last() =~= memory@.take(i as int));
        assert(part.last() == memory@[i as int]);
        assert(part[best as int] == memory@[best as int]);
        if !ieee::lt(memory[i], memory[best]) {
            best = i;
        }
        i += 1;
    }
    assert(memory@.take(n as int) =~= memory@);
    best
}

// ---------------------------------------------------------------- counters

/// Keeps the previous counter readings and the one-hour history.
#[derive(Debug)]
pub struct Monitor {
    previous_cpu: Option<(u128, u128)>,
    previous_energy: Option<(u64, u64)>,
    rapl_range_uj: u64,
    last_cpu_watts: u32,
    /// Samples of the last hour, oldest first.
    history: VecDeque<Sample>,
    /// Most recent sample.
    last: Sample,
}

/// The monitor's state.
#[verifier::ext_equal]
pub struct Record {
    pub previous_cpu: Option<(u128, u128)>,
    pub previous_energy: Option<(u64, u64)>,
    pub rapl_range_uj: u64,
    pub last_cpu_watts: u32,
    pub history: Seq<Sample>,
    pub last: Sample,
}

impl View for Monitor {
    type V = Record;

    closed spec fn view(&self) -> Record {
        Record {
            previous_cpu: self.previous_cpu,
            previous_energy: self.previous_energy,
            rapl_range_uj: self.rapl_range_uj,
            last_cpu_watts: self.last_cpu_watts,
            history: self.history@,
            last: self.last,
        }
    }
}

/// How busy the processor was since the last reading.
#[derive(Debug, Clone, Copy, PartialEq, Eq, Structural)]
pub enum CpuStep {
    /// Nothing can be said: the load is zero.
    Unknown,
    /// It was busy for `busy` of `total` ticks.
    Share { busy: u128, total: u128 },
    /// The idle time advanced by more than all time did.
    Contradiction,
}

/// By how much a counter advanced; one that went back did not.
pub open spec fn advance(now: int, before: int) -> int {
    if now >= before {
        now - before
    } else {
        0
    }
}

/// The monitor after a reading of the counters, and what it says.
pub open spec fn cpu_stepped(m: Record, times: Option<(u128, u128)>) -> (Record, CpuStep) {
    match times {
        None => (m, CpuStep::Unknown),
        Some((total, idle)) => match m.previous_cpu {
            None => (Record { previous_cpu: times, ..m }, CpuStep::Unknown),
            Some((total_before, idle_before)) => {
                let all = advance(total as int, total_before as int);
                let rest = advance(idle as int, idle_before as int);
                if all == 0 {
                    (Record { previous_cpu: times, ..m }, CpuStep::Unknown)
                } else if rest > all {
                    (m, CpuStep::Contradiction)
                } else {
                    (
                        Record { previous_cpu: times, ..m },
                        CpuStep::Share { busy: (all - rest) as u128, total: all as u128 },
                    )
                }
            },
        },
    }
}

/// What the energy counter says.
#[derive(Debug, Clone, Copy, PartialEq, Eq, Structural)]
pub enum EnergyStep {
    /// The counter cannot be read.
    Unavailable,
    /// The power is this.
    Known(u32),
    /// The power is so much energy, in microjoules, over so much time, in
    /// nanoseconds: hand it to `settle`.
    Measure { microjoules: u64, nanoseconds: u64 },
}

/// The energy between two readings of a counter that starts over at a range.
pub open spec fn energy_between(before: u64, now: u64, range: u64) -> int {
    if now >= before {
        now - before
    } else {
        let rest = advance(range as int, before as int);
        if rest + now > u64::MAX {
            u64::MAX as int
        } else {
            rest + now
        }
    }
}

/// The monitor after a reading of the energy counter, and what it says. The
/// time is in nanoseconds.
pub open spec fn energy_stepped(m: Record, energy: Option<u64>, now: u64) -> (Record, EnergyStep) {
    match energy {
        None => (m, EnergyStep::Unavailable),
        Some(e) => match m.previous_energy {
            None => (
                Record { previous_energy: Some((e, now)), last_cpu_watts: 0, ..m },
                EnergyStep::Known(0),
            ),
            Some((before, at)) => if now <= at {
                (
                    Record { previous_energy: Some((e, now)), ..m },
                    EnergyStep::Known(m.last_cpu_watts),
                )
            } else {
                (
                    m,
                    EnergyStep::Measure {
                        microjoules: energy_between(before, e, m.rapl_range_uj) as u64,
                        nanoseconds: (now - at) as u64,
                    },
                )
            },
        },
    }
}

/// The monitor after a measured power: one that is no sensible number leaves
/// everything as it was, and the last one is shown.
pub open spec fn settled(m: Record, watts: u32, energy: u64, now: u64) -> (Record, u32) {
    if !ieee::is_finite_single(watts) || ieee::below(watts, 0) {
        (m, m.last_cpu_watts)
    } else {
        (Record { previous_energy: Some((energy, now)), last_cpu_watts: watts, ..m }, watts)
    }
}

/// A history after one more sample; the oldest leaves a full one.
pub open spec fn recorded(history: Seq<Sample>, sample: Sample) -> Seq<Sample> {
    if history.len() >= HISTORY_LEN {
        history.drop_first().push(sample)
    } else {
        history.push(sample)
    }
}

impl Monitor {
    /// A monitor without readings. `range` is where the energy counter starts
    /// over, zero where that is not known.
    pub fn new(range: u64) -> (r: Self)
        ensures
            r@ == (Record {
                previous_cpu: None,
                previous_energy: None,
                rapl_range_uj: range,
                last_cpu_watts: 0,
                history: Seq::empty(),
                last: no_sample(),
            }),
    {
        Monitor {
            previous_cpu: None,
            previous_energy: None,
            rapl_range_uj: range,
            last_cpu_watts: 0,
            history: VecDeque::new(),
            last: Sample::default(),
        }
    }

    /// Takes the processor's counters, where they could be read.
    pub fn cpu_load(&mut self, times: Option<(u128, u128)>) -> (r: CpuStep)
        ensures
            (final(self)@, r) == cpu_stepped(old(self)@, times),
    {
        match times {
            None => CpuStep::Unknown,
            Some((total, idle)) => {
                let step = match self.previous_cpu {
                    None => CpuStep::Unknown,
                    Some((total_before, idle_before)) => {
                        let all: u128 = if total >= total_before {
                            total - total_before
                        } else {
                            0
                        };
                        let rest: u128 = if idle >= idle_before {
                            idle - idle_before
                        } else {
                            0
                        };
                        if all == 0 {
                            CpuStep::Unknown
                        } else if rest > all {
                            return CpuStep::Contradiction;
                        } else {
                            CpuStep::Share { busy: all - rest, total: all }
                        }
                    },
                };
                self.previous_cpu = Some((total, idle));
                step
            },
        }
    }

    /// Takes the energy counter, where it could be read.
    pub fn cpu_watts(&mut self, energy: Option<u64>, now: u64) -> (r: EnergyStep)
        ensures
            (final(self)@, r) == energy_stepped(old(self)@, energy, now),
    {
        match energy {
            None => EnergyStep::Unavailable,
            Some(e) => match self.previous_energy {
                None => {
                    self.previous_energy = Some((e, now));
                    self.last_cpu_watts = 0;
                    EnergyStep::Known(0)
                },
                Some((before, at)) => {
                    if now <= at {
                        self.previous_energy = Some((e, now));
                        return EnergyStep::Known(self.last_cpu_watts);
                    }
                    let microjoules: u64 = if e >= before {
                        e - before
                    } else {
                        let rest: u64 = if self.rapl_range_uj >= before {
                            self.rapl_range_uj - before
                        } else {
                            0
                        };
                        if rest > u64::MAX - e {
                            u64::MAX
                        } else {
                            rest + e
                        }
                    };
                    EnergyStep::Measure { microjoules, nanoseconds: now - at }
                },
            },
        }
    }

    /// Takes the power that was computed from a `Measure` for this energy and
    /// time.
    pub fn settle(&mut self, watts: u32, energy: u64, now: u64) -> (r: u32)
        ensures
            (final(self)@, r) == settled(old(self)@, watts, energy, now),
    {
        if !ieee::finite_single(watts) || ieee::lt(watts, 0) {
            return self.last_cpu_watts;
        }
        self.previous_energy = Some((energy, now));
        self.last_cpu_watts = watts;
        watts
    }

    /// Appends a sample to the history.
    pub fn tick(&mut self, sample: Sample) -> (r: Sample)
        ensures
            r == sample,
            final(self)@ == (Record {
                history: recorded(old(self)@.history, sample),
                last: sample,
                ..old(self)@
            }),
    {
        self.last = sample;
        if self.history.len() >= HISTORY_LEN {
            self.history.pop_front();
            assert(self.history@ =~= old(self).history@.drop_first());
        }
        self.history.push_back(sample);
        sample
    }

    /// Forgets the samples taken so far, but not the counters and the last one.
    pub fn clear_history(&mut self)
        ensures
            final(self)@ == (Record { history: Seq::empty(), ..old(self)@ }),
    {
        self.history = VecDeque::new();
        assert(self.history@ =~= Seq::<Sample>::empty());
    }

    /// Most recent sample.
    pub fn last(&self) -> (r: Sample)
        ensures
            r == self@.last,
    {
        self.last
    }

    /// Samples of the last hour, oldest first.
    pub fn history(&self) -> (r: Vec<Sample>)
        ensures
            r@ == self@.history,
    {
        let n: usize = self.history.len();
        let mut out: Vec<Sample> = Vec::new();
        let mut i: usize = 0;
        while i < n
            invariant
                i <= n == self.history@.len(),
                out@ == self.history@.take(i as int),
            decreases n - i,
        {
            out.push(self.history[i]);
            assert(out@ =~= self.history@.take(i + 1));
            i += 1;
        }
        assert(out@ =~= self.history@);
        out
    }
}

// ---------------------------------------------------------------- laws

/// The history never grows beyond an hour, keeps its order, and ends with the
/// newest sample.
pub proof fn the_hour_stays_an_hour(history: Seq<Sample>, sample: Sample)
    requires
        history.len() <= HISTORY_LEN,
    ensures
        recorded(history, sample).len() <= HISTORY_LEN,
        recorded(history, sample).last() == sample,
        history.len() < HISTORY_LEN ==> recorded(history, sample).drop_last() == history,
        history.len() == HISTORY_LEN ==> recorded(history, sample).drop_last()
            == history.drop_first(),
{
    let now = recorded(history, sample);
    if history.len() < HISTORY_LEN {
        assert(now.drop_last() =~= history);
    } else {
        assert(now.drop_last() =~= history.drop_first());
    }
}

/// The processor is never busier than all the time there was.
pub proof fn loads_are_shares(m: Record, times: Option<(u128, u128)>)
    ensures
        cpu_stepped(m, times).1 matches CpuStep::Share { busy, total } ==> busy <= total && total
            > 0,
{
}

/// The power that is kept is a finite number and not below zero, whatever was
/// measured.
pub proof fn power_stays_sensible(
    m: Record,
    energy: Option<u64>,
    now: u64,
    watts: u32,
    e: u64,
)
    requires
        sensible(m.last_cpu_watts),
    ensures
        sensible(energy_stepped(m, energy, now).0.last_cpu_watts),
        sensible(settled(m, watts, e, now).0.last_cpu_watts),
        sensible(settled(m, watts, e, now).1),
{
}

/// Whether bits stand for a power that can be shown.
pub open spec fn sensible(watts: u32) -> bool {
    ieee::is_finite_single(watts) && !ieee::below(watts, 0)
}

/// A counter that starts over at its range still tells the energy that flowed
/// in between, as long as that is less than the range.
pub proof fn wrapped_counters_count_on(before: u64, flowed: u64, range: u64)
    requires
        before <= range,
        flowed < range,
    ensures
        energy_between(
            before,
            if before + flowed <= range {
                (before + flowed) as u64
            } else {
                (before + flowed - range) as u64
            },
            range,
        ) == flowed,
{
}

proof fn lemma_field(lines: Seq<Seq<char>>, name: Seq<char>, i: int)
    requires
        0 <= i < lines.len(),
        text::begins(lines[i], name),
        forall|k: int| i < k < lines.len() ==> !text::begins(#[trigger] lines[k], name),
    ensures
        field_in(lines, name) == first_number(lines[i].skip(name.len() as int)),
    decreases lines.len(),
{
    if i < lines.len() - 1 {
        assert(!text::begins(lines[lines.len() - 1], name));
        let shorter = lines.drop_last();
        assert forall|k: int| i < k < shorter.len() implies !text::begins(
            #[trigger] shorter[k],
            name,
        ) by {
            assert(shorter[k] == lines[k]);
        }
        lemma_field(shorter, name, i);
    }
}

proof fn lemma_no_field(lines: Seq<Seq<char>>, name: Seq<char>)
    requires
        forall|k: int| 0 <= k < lines.len() ==> !text::begins(#[trigger] lines[k], name),
    ensures
        field_in(lines, name) == 0,
    decreases lines.len(),
{
    if lines.len() > 0 {
        assert(!text::begins(lines[lines.len() - 1], name));
        let shorter = lines.drop_last();
        assert forall|k: int| 0 <= k < shorter.len() implies !text::begins(
            #[trigger] shorter[k],
            name,
        ) by {
            assert(shorter[k] == lines[k]);
        }
        lemma_no_field(shorter, name);
    }
}

/// Used and available memory together are the installed memory. Only the lines
/// that begin with `MemTotal:` and `MemAvailable:` count, whatever else the file
/// says: free memory, buffers and the page cache play no part.
pub proof fn used_and_available_are_all(meminfo: Seq<char>, i: int, j: int)
    requires
        ({
            let lines = text::line_list(meminfo);
            &&& 0 <= i < lines.len()
            &&& 0 <= j < lines.len()
            &&& text::begins(lines[i], "MemTotal:"@)
            &&& text::begins(lines[j], "MemAvailable:"@)
            &&& forall|k: int|
                i < k < lines.len() ==> !text::begins(#[trigger] lines[k], "MemTotal:"@)
            &&& forall|k: int|
                j < k < lines.len() ==> !text::begins(#[trigger] lines[k], "MemAvailable:"@)
        }),
    ensures
        ({
            let lines = text::line_list(meminfo);
            let total = first_number(lines[i].skip(9));
            let available = first_number(lines[j].skip(13));
            let (used, installed) = memory_in(meminfo);
            &&& installed == total
            &&& available <= total ==> used + available == total
            &&& available > total ==> used == 0
        }),
{
    reveal_strlit("MemTotal:");
    reveal_strlit("MemAvailable:");
    lemma_field(text::line_list(meminfo), "MemTotal:"@, i);
    lemma_field(text::line_list(meminfo), "MemAvailable:"@, j);
}

/// Two files that agree in the lines of installed and of available memory give
/// the same memory.
pub proof fn other_lines_do_not_count(one: Seq<char>, other: Seq<char>)
    requires
        ({
            let counts = |line: Seq<char>|
                text::begins(line, "MemTotal:"@) || text::begins(line, "MemAvailable:"@);
            text::line_list(one).filter(counts) == text::line_list(other).filter(counts)
        }),
    ensures
        memory_in(one) == memory_in(other),
{
    let counts = |line: Seq<char>|
        text::begins(line, "MemTotal:"@) || text::begins(line, "MemAvailable:"@);
    lemma_filtered_field(text::line_list(one), "MemTotal:"@, counts);
    lemma_filtered_field(text::line_list(one), "MemAvailable:"@, counts);
    lemma_filtered_field(text::line_list(other), "MemTotal:"@, counts);
    lemma_filtered_field(text::line_list(other), "MemAvailable:"@, counts);
}

proof fn lemma_filtered_field(lines: Seq<Seq<char>>, name: Seq<char>, counts: spec_fn(Seq<char>) -> bool)
    requires
        forall|line: Seq<char>| #[trigger] text::begins(line, name) ==> counts(line),
    ensures
        field_in(lines.filter(counts), name) == field_in(lines, name),
    decreases lines.len(),
{
    reveal(Seq::filter);
    if lines.len() > 0 {
        let shorter = lines.drop_last();
        lemma_filtered_field(shorter, name, counts);
        let here = shorter.filter(counts);
        if counts(lines.last()) {
            assert(here.push(lines.last()).drop_last() =~= here);
        } else {
            assert(!text::begins(lines.last(), name));
        }
    }
}

/// The time of the processor is the sum of its first eight counters; idle are
/// the fourth and the fifth, doing nothing and waiting for a disk.
pub proof fn idle_time_is_the_fourth_and_fifth(stat: Seq<char>)
    requires
        text::line_list(stat).len() > 0,
        text::words(text::line_list(stat)[0]).len() > 0,
        numbers_in(text::words(text::line_list(stat)[0]).skip(1)).len() >= 8,
    ensures
        ({
            let n = numbers_in(text::words(text::line_list(stat)[0]).skip(1));
            cpu_times_in(stat) == Some(
                (
                    (n[0] + n[1] + n[2] + n[3] + n[4] + n[5] + n[6] + n[7]) as nat,
                    (n[3] + n[4]) as nat,
                ),
            )
        }),
{
    reveal_with_fuel(sum_of, 9);
}

/// The counters of the processor are the numbers of its line, in order.
pub proof fn numbers_are_read_in_order(words: Seq<Seq<char>>, word: Seq<char>)
    ensures
        numbers_in(Seq::empty()).len() == 0,
        match text::unsigned_literal(word, 10, 0xffff_ffff_ffff_ffff) {
            Some(n) => numbers_in(words.push(word)) == numbers_in(words).push(n as u64),
            None => numbers_in(words.push(word)) == numbers_in(words),
        },
{
    assert(words.push(word).drop_last() =~= words);
}

/// Fewer than five counters, or no line at all, say nothing.
pub proof fn short_lines_say_nothing(stat: Seq<char>)
    ensures
        text::line_list(stat).len() == 0 ==> cpu_times_in(stat) is None,
        text::line_list(stat).len() > 0 && text::words(text::line_list(stat)[0]).len() > 0
            ==> (cpu_times_in(stat) is None <==> numbers_in(
            text::words(text::line_list(stat)[0]).skip(1),
        ).len() < 5),
{
}

/// The processor was busy for all the time that passed but the idle time that
/// passed, and the new reading replaces the old one.
pub proof fn busy_is_all_but_idle(m: Record, total: u128, idle: u128, all: u128, rest: u128)
    requires
        m.previous_cpu == Some((total, idle)),
        total + all <= u128::MAX,
        idle + rest <= u128::MAX,
        0 < all,
        rest <= all,
    ensures
        ({
            let now = Some(((total + all) as u128, (idle + rest) as u128));
            let (after, step) = cpu_stepped(m, now);
            &&& step == CpuStep::Share { busy: (all - rest) as u128, total: all }
            &&& after == (Record { previous_cpu: now, ..m })
        }),
{
}

/// Without a reading, without an earlier one and without time in between nothing
/// can be said.
pub proof fn loads_need_two_readings(m: Record, total: u128, idle: u128)
    ensures
        cpu_stepped(m, None) == (m, CpuStep::Unknown),
        m.previous_cpu is None ==> cpu_stepped(m, Some((total, idle))) == (
            (Record { previous_cpu: Some((total, idle)), ..m }),
            CpuStep::Unknown,
        ),
        m.previous_cpu matches Some((before, _)) ==> (total <= before ==> cpu_stepped(
            m,
            Some((total, idle)),
        ).1 == CpuStep::Unknown),
{
}

/// Power is the energy that flowed over the time that passed between two
/// readings. The first reading gives zero, and without a counter there is none.
pub proof fn power_is_energy_over_time(m: Record, before: u64, at: u64, flowed: u64, passed: u64)
    requires
        m.previous_energy == Some((before, at)),
        before + flowed <= u64::MAX,
        at + passed <= u64::MAX,
        0 < passed,
    ensures
        energy_stepped(m, Some((before + flowed) as u64), (at + passed) as u64) == (
            m,
            EnergyStep::Measure { microjoules: flowed, nanoseconds: passed },
        ),
        energy_stepped(m, None, at) == (m, EnergyStep::Unavailable),
        energy_stepped(m, Some(before), at).1 == EnergyStep::Known(m.last_cpu_watts),
        energy_stepped(Record { previous_energy: None, ..m }, Some(before), at) == (
            (Record { previous_energy: Some((before, at)), last_cpu_watts: 0, ..m }),
            EnergyStep::Known(0),
        ),
{
}

/// A sensible power is shown and kept with its reading; any other leaves the
/// last one.
pub proof fn sensible_power_is_kept(m: Record, watts: u32, energy: u64, now: u64)
    ensures
        watts % 0x8000_0000 < 0x7f80_0000 && (watts < 0x8000_0000 || watts == 0x8000_0000)
            ==> settled(m, watts, energy, now) == (
            (Record { previous_energy: Some((energy, now)), last_cpu_watts: watts, ..m }),
            watts,
        ),
        watts % 0x8000_0000 >= 0x7f80_0000 || watts > 0x8000_0000 ==> settled(
            m,
            watts,
            energy,
            now,
        ) == (m, m.last_cpu_watts),
{
}

/// An hour holds 3600 samples.
pub proof fn an_hour_holds_its_seconds(history: Seq<Sample>, sample: Sample)
    requires
        history.len() <= 3600,
    ensures
        history.len() < 3600 ==> recorded(history, sample) == history.push(sample),
        history.len() == 3600 ==> recorded(history, sample) == history.skip(1).push(sample),
{
    if history.len() == 3600 {
        assert(recorded(history, sample) =~= history.skip(1).push(sample));
    }
}

/// No GPU has more memory than the primary one.
pub proof fn the_primary_gpu_is_the_largest(memory: Seq<u32>, i: int)
    requires
        0 <= i < memory.len(),
        forall|k: int| 0 <= k < memory.len() ==> !ieee::is_nan(#[trigger] memory[k]),
    ensures
        0 <= primary_of(memory) < memory.len(),
        ieee::rank(memory[i]) <= ieee::rank(memory[primary_of(memory)]),
        i > primary_of(memory) ==> ieee::rank(memory[i]) < ieee::rank(memory[primary_of(memory)]),
    decreases memory.len(),
{
    if memory.len() > 1 {
        let shorter = memory.drop_last();
        assert forall|k: int| 0 <= k < shorter.len() implies !ieee::is_nan(
            #[trigger] shorter[k],
        ) by {
            assert(shorter[k] == memory[k]);
        }
        let best = primary_of(shorter);
        the_primary_gpu_is_the_largest(
            shorter,
            if i < shorter.len() {
                i
            } else {
                0
            },
        );
        assert(shorter[best] == memory[best]);
        assert(memory.last() == memory[memory.len() - 1]);
        assert(!ieee::is_nan(memory[best]) && !ieee::is_nan(memory[memory.len() - 1]));
        if i < shorter.len() {
            assert(shorter[i] == memory[i]);
        }
    }
}

/// A card is `card` and a number.
pub proof fn cards_have_numbers(name: Seq<char>, index: Seq<char>)
    requires
        name == "card"@ + index,
    ensures
        is_card_name(name) <==> index.len() > 0 && forall|i: int|
            0 <= i < index.len() ==> '0' <= #[trigger] index[i] <= '9',
{
    reveal_strlit("card");
    assert(name.skip(4) =~= index);
    assert(name.take(4) =~= "card"@);
    if is_card_name(name) {
        assert(forall|i: int| 0 <= i < index.len() ==> text::is_digit(index[i]));
    }
}

/// The first number of a text is its first word.
pub proof fn the_first_word_is_the_number(value: Seq<char>)
    ensures
        text::words(value).len() == 0 ==> first_number(value) == 0,
        text::words(value).len() > 0 ==> (match text::unsigned_literal(
            text::words(value)[0],
            10,
            0xffff_ffff_ffff_ffff,
        ) {
            Some(n) => first_number(value) == n,
            None => first_number(value) == 0,
        }),
{
}

/// A character is counted as often as it occurs.
pub proof fn characters_are_counted(s: Seq<char>, c: char, other: char)
    ensures
        count_of(Seq::empty(), c) == 0,
        count_of(s.push(c), c) == count_of(s, c) + 1,
        other != c ==> count_of(s.push(other), c) == count_of(s, c),
{
    assert(s.push(c).drop_last() =~= s);
    assert(s.push(other).drop_last() =~= s);
}

} // verus!
