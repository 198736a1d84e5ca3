//! What the machine says about its processor, its memory and its GPUs.
use crate::text;
use vstd::prelude::*;

verus! {

// ---------------------------------------------------------------- processor

/// The trimmed value behind the colon of a line that begins with a prefix; an
/// empty value is none.
pub open spec fn value_after(line: Seq<char>, prefix: Seq<char>) -> Option<Seq<char>> {
    if text::begins(line, prefix) {
        match text::cut_first(line.skip(prefix.len() as int), ':') {
            Some((_, value)) => if text::trimmed(value).len() > 0 {
                Some(text::trimmed(value))
            } else {
                None
            },
            None => None,
        }
    } else {
        None
    }
}

/// The first such value in a list of lines.
pub open spec fn first_value(lines: Seq<Seq<char>>, prefix: Seq<char>) -> Option<Seq<char>>
    decreases lines.len(),
{
    if lines.len() == 0 {
        None
    } else {
        match value_after(lines[0], prefix) {
            Some(v) => Some(v),
            None => first_value(lines.drop_first(), prefix),
        }
    }
}

/// The core that an ARM part number stands for.
pub open spec fn core_of(part: int) -> Option<Seq<char>> {
    if part == 0xD03 {
        Some("Cortex-A53"@)
    } else if part == 0xD05 {
        Some("Cortex-A55"@)
    } else if part == 0xD07 {
        Some("Cortex-A57"@)
    } else if part == 0xD08 {
        Some("Cortex-A72"@)
    } else if part == 0xD09 {
        Some("Cortex-A73"@)
    } else if part == 0xD0A {
        Some("Cortex-A75"@)
    } else if part == 0xD0B {
        Some("Cortex-A76"@)
    } else if part == 0xD0D {
        Some("Cortex-A77"@)
    } else if part == 0xD41 {
        Some("Cortex-A78"@)
    } else if part == 0xD44 {
        Some("Cortex-X1"@)
    } else if part == 0xD46 {
        Some("Cortex-A510"@)
    } else if part == 0xD47 {
        Some("Cortex-A710"@)
    } else if part == 0xD48 {
        Some("Cortex-X2"@)
    } else if part == 0xD4D {
        Some("Cortex-A715"@)
    } else if part == 0xD4E {
        Some("Cortex-X3"@)
    } else if part == 0xD80 {
        Some("Cortex-A520"@)
    } else if part == 0xD81 {
        Some("Cortex-A720"@)
    } else if part == 0xD82 {
        Some("Cortex-X4"@)
    } else if part == 0xD85 {
        Some("Cortex-X925"@)
    } else if part == 0xD87 {
        Some("Cortex-A725"@)
    } else {
        None
    }
}

/// `s` without the marks `0x` at its beginning.
pub open spec fn without_marks(s: Seq<char>) -> Seq<char>
    decreases s.len(),
{
    if s.len() >= 2 && s[0] == '0' && s[1] == 'x' {
        without_marks(s.skip(2))
    } else {
        s
    }
}

/// The core that the text of a part number stands for.
pub open spec fn core_in(part: Seq<char>) -> Option<Seq<char>> {
    match text::unsigned_literal(without_marks(part), 16, u32::MAX as int) {
        Some(v) => core_of(v),
        None => None,
    }
}

fn core_name(part: u32) -> (r: Option<&'static str>)
    ensures
        r matches Some(s) ==> core_of(part as int) == Some(s@),
        r is None ==> core_of(part as int) is None,
{
    if part == 0xD03 {
        Some("Cortex-A53")
    } else if part == 0xD05 {
        Some("Cortex-A55")
    } else if part == 0xD07 {
        Some("Cortex-A57")
    } else if part == 0xD08 {
        Some("Cortex-A72")
    } else if part == 0xD09 {
        Some("Cortex-A73")
    } else if part == 0xD0A {
        Some("Cortex-A75")
    } else if part == 0xD0B {
        Some("Cortex-A76")
    } else if part == 0xD0D {
        Some("Cortex-A77")
    } else if part == 0xD41 {
        Some("Cortex-A78")
    } else if part == 0xD44 {
        Some("Cortex-X1")
    } else if part == 0xD46 {
        Some("Cortex-A510")
    } else if part == 0xD47 {
        Some("Cortex-A710")
    } else if part == 0xD48 {
        Some("Cortex-X2")
    } else if part == 0xD4D {
        Some("Cortex-A715")
    } else if part == 0xD4E {
        Some("Cortex-X3")
    } else if part == 0xD80 {
        Some("Cortex-A520")
    } else if part == 0xD81 {
        Some("Cortex-A720")
    } else if part == 0xD82 {
        Some("Cortex-X4")
    } else if part == 0xD85 {
        Some("Cortex-X925")
    } else if part == 0xD87 {
        Some("Cortex-A725")
    } else {
        None
    }
}

/// ARM `CPU part` number to core name.
pub fn arm_core_name(part: &str) -> (r: Option<String>)
    ensures
        r matches Some(s) ==> core_in(part@) == Some(s@),
        r is None ==> core_in(part@) is None,
{
    let chars = text::chars_of(part);
    let n: usize = chars.len();
    let mut i: usize = 0;
    assert(chars@.skip(0) =~= chars@);
    while n - i >= 2 && chars[i] == '0' && chars[i + 1] == 'x'
        invariant
            i <= n == chars@.len(),
            chars@ == part@,
            without_marks(part@) == without_marks(chars@.skip(i as int)),
        decreases n - i,
    {
        assert(chars@.skip(i as int)[0] == chars@[i as int]);
        assert(chars@.skip(i as int)[1] == chars@[i + 1]);
        assert(chars@.skip(i as int).skip(2) =~= chars@.skip(i + 2));
        i += 2;
    }
    proof {
        if n - i >= 2 {
            assert(chars@.skip(i as int)[0] == chars@[i as int]);
            assert(chars@.skip(i as int)[1] == chars@[i + 1]);
        }
    }
    let number = text::string_of(&chars, i, n);
    assert(number@ =~= chars@.skip(i as int));
    match text::parse_hex_u32(number.as_str()) {
        Some(v) => match core_name(v) {
            Some(name) => Some(text::copy(name)),
            None => None,
        },
        None => None,
    }
}

/// The part number in a line of `/proc/cpuinfo`.
pub open spec fn core_at(line: Seq<char>) -> Option<Seq<char>> {
    if text::begins(line, "CPU part"@) {
        match text::cut_first(line.skip("CPU part"@.len() as int), ':') {
            Some((_, part)) => core_in(text::trimmed(part)),
            None => None,
        }
    } else {
        None
    }
}

/// The different cores in a list of lines, in the order of their first
/// appearance.
pub open spec fn cores_in(lines: Seq<Seq<char>>) -> Seq<Seq<char>>
    decreases lines.len(),
{
    if lines.len() == 0 {
        Seq::empty()
    } else {
        let before = cores_in(lines.drop_last());
        match core_at(lines.last()) {
            Some(name) => if before.contains(name) {
                before
            } else {
                before.push(name)
            },
            None => before,
        }
    }
}

/// `s` without trailing NUL characters.
pub open spec fn without_nuls(s: Seq<char>) -> Seq<char>
    decreases s.len(),
{
    if s.len() > 0 && s.last() == '\0' {
        without_nuls(s.drop_last())
    } else {
        s
    }
}

/// The first board name that is not empty.
pub open spec fn board_in(boards: Seq<Seq<char>>) -> Option<Seq<char>>
    decreases boards.len(),
{
    if boards.len() == 0 {
        None
    } else {
        let name = text::trimmed(without_nuls(boards[0]));
        if name.len() > 0 {
            Some(name)
        } else {
            board_in(boards.drop_first())
        }
    }
}

/// The name of the processor: the model name, the hardware, the ARM cores, the
/// board, or just `CPU`.
pub open spec fn processor(cpuinfo: Seq<char>, boards: Seq<Seq<char>>) -> Seq<char> {
    let lines = text::line_list(cpuinfo);
    match first_value(lines, "model name"@) {
        Some(name) => name,
        None => match first_value(lines, "Hardware"@) {
            Some(name) => name,
            None => if cores_in(lines).len() > 0 {
                "ARM "@ + text::joined(cores_in(lines), " + "@)
            } else {
                match board_in(boards) {
                    Some(name) => name,
                    None => "CPU"@,
                }
            },
        },
    }
}

fn find_value(lines: &Vec<String>, prefix: &str) -> (r: Option<String>)
    ensures
        r matches Some(s) ==> first_value(text::views(lines@), prefix@) == Some(s@),
        r is None ==> first_value(text::views(lines@), prefix@) is None,
{
    let ghost all = text::views(lines@);
    let mut i: usize = 0;
    assert(all.skip(0) =~= all);
    while i < lines.len()
        invariant
            i <= lines@.len(),
            all == text::views(lines@),
            first_value(all, prefix@) == first_value(all.skip(i as int), prefix@),
        decreases lines@.len() - i,
    {
        assert(all.skip(i as int)[0] == lines@[i as int]@);
        assert(all.skip(i as int).drop_first() =~= all.skip(i + 1));
        if let Some(rest) = text::strip_prefix(lines[i].as_str(), prefix) {
            if let Some((_, value)) = text::split_once(rest.as_str(), ':') {
                let name = text::trim(value.as_str());
                if !text::is_empty(name.as_str()) {
                    return Some(name);
                }
            }
        }
        i += 1;
    }
    None
}

fn core_of_line(line: &str) -> (r: Option<String>)
    ensures
        r matches Some(s) ==> core_at(line@) == Some(s@),
        r is None ==> core_at(line@) is None,
{
    match text::strip_prefix(line, "CPU part") {
        Some(rest) => match text::split_once(rest.as_str(), ':') {
            Some((_, part)) => {
                let part = text::trim(part.as_str());
                arm_core_name(part.as_str())
            },
            None => None,
        },
        None => None,
    }
}

fn find_cores(lines: &Vec<String>) -> (r: Vec<String>)
    ensures
        text::views(r@) == cores_in(text::views(lines@)),
{
    let ghost all = text::views(lines@);
    let mut out: Vec<String> = Vec::new();
    let mut i: usize = 0;
    assert(all.take(0) =~= Seq::empty());
    assert(text::views(out@) =~= Seq::empty());
    while i < lines.len()
        invariant
            i <= lines@.len(),
            all == text::views(lines@),
            text::views(out@) == cores_in(all.take(i as int)),
        decreases lines@.len() - i,
    {
        let ghost before = out@;
        assert(all.take(i + 1).drop_last() =~= all.take(i as int));
        assert(all.take(i + 1).last() == lines@[i as int]@);
        if let Some(name) = core_of_line(lines[i].as_str()) {
            if !text::holds(&out, name.as_str()) {
                out.push(name);
                assert(text::views(out@) =~= text::views(before).push(name@));
            }
        }
        i += 1;
    }
    assert(all.take(all.len() as int) =~= all);
    out
}

fn trim_nuls(s: &str) -> (r: String)
    ensures
        r@ == without_nuls(s@),
{
    let chars = text::chars_of(s);
    let mut n: usize = chars.len();
    assert(chars@.take(n as int) =~= chars@);
    while n > 0 && chars[n - 1] == '\0'
        invariant
            n <= chars@.len(),
            chars@ == s@,
            without_nuls(s@) == without_nuls(chars@.take(n as int)),
        decreases n,
    {
        assert(chars@.take(n as int).last() == chars@[n - 1]);
        assert(chars@.take(n as int).drop_last() =~= chars@.take(n - 1));
        n -= 1;
    }
    proof {
        if n > 0 {
            assert(chars@.take(n as int).last() == chars@[n - 1]);
        }
    }
    let out = text::string_of(&chars, 0, n);
    assert(out@ =~= chars@.take(n as int));
    out
}

fn find_board(boards: &Vec<String>) -> (r: Option<String>)
    ensures
        r matches Some(s) ==> board_in(text::views(boards@)) == Some(s@),
        r is None ==> board_in(text::views(boards@)) is None,
{
    let ghost all = text::views(boards@);
    let mut i: usize = 0;
    assert(all.skip(0) =~= all);
    while i < boards.len()
        invariant
            i <= boards@.len(),
            all == text::views(boards@),
            board_in(all) == board_in(all.skip(i as int)),
        decreases boards@.len() - i,
    {
        assert(all.skip(i as int)[0] == boards@[i as int]@);
        assert(all.skip(i as int).drop_first() =~= all.skip(i + 1));
        let bare = trim_nuls(boards[i].as_str());
        let name = text::trim(bare.as_str());
        if !text::is_empty(name.as_str()) {
            return Some(name);
        }
        i += 1;
    }
    None
}

/// Readable processor name from `/proc/cpuinfo`, empty where it could not be
/// read, and from the files that name the board, as far as they could be read.
pub fn cpu_model_name(cpuinfo: &str, boards: &Vec<String>) -> (r: String)
    ensures
        r@ == processor(cpuinfo@, text::views(boards@)),
{
    let lines = text::lines(cpuinfo);
    if let Some(name) = find_value(&lines, "model name") {
        return name;
    }
    if let Some(name) = find_value(&lines, "Hardware") {
        return name;
    }
    let cores = find_cores(&lines);
    assert(text::views(cores@).len() == cores@.len());
    if cores.len() > 0 {
        let joined = text::join(&cores, " + ");
        return text::cat2("ARM ", joined.as_str());
    }
    match find_board(boards) {
        Some(name) => name,
        None => text::copy("CPU"),
    }
}

// ---------------------------------------------------------------- memory and load

/// The second word of the last line that begins with a name.
pub open spec fn meminfo_word(lines: Seq<Seq<char>>, name: Seq<char>) -> Option<Seq<char>>
    decreases lines.len(),
{
    if lines.len() == 0 {
        None
    } else if text::begins(lines.last(), name) {
        if text::words(lines.last()).len() > 1 {
            Some(text::words(lines.last())[1])
        } else {
            None
        }
    } else {
        meminfo_word(lines.drop_last(), name)
    }
}

/// The value of a field of `/proc/meminfo`, as it stands there.
pub fn meminfo_field(meminfo: &str, name: &str) -> (r: Option<String>)
    ensures
        r matches Some(s) ==> meminfo_word(text::line_list(meminfo@), name@) == Some(s@),
        r is None ==> meminfo_word(text::line_list(meminfo@), name@) is None,
{
    let lines = text::lines(meminfo);
    let ghost all = text::line_list(meminfo@);
    let mut i: usize = lines.len();
    assert(all.take(all.len() as int) =~= all);
    while i > 0
        invariant
            i <= lines@.len(),
            all == text::views(lines@),
            all == text::line_list(meminfo@),
            meminfo_word(all, name@) == meminfo_word(all.take(i as int), name@),
        decreases i,
    {
        assert(all.take(i as int).last() == lines@[i - 1]@);
        assert(all.take(i as int).drop_last() =~= all.take(i - 1));
        if text::starts_with(lines[i - 1].as_str(), name) {
            let words = text::split_words(lines[i - 1].as_str());
            assert(text::words(lines@[i - 1]@).len() == words@.len());
            if words.len() > 1 {
                assert(text::words(lines@[i - 1]@)[1] == words@[1]@);
                return Some(text::copy(words[1].as_str()));
            }
            return None;
        }
        i -= 1;
    }
    None
}

/// The first three words of `/proc/loadavg`, as far as there are so many.
pub open spec fn load_words(line: Seq<char>) -> Seq<Seq<char>> {
    let words = text::words(line);
    words.take(
        if words.len() < 3 {
            words.len() as int
        } else {
            3
        },
    )
}

pub fn load_fields(line: &str) -> (r: Vec<String>)
    ensures
        text::views(r@) == load_words(line@),
{
    let words = text::split_words(line);
    let ghost all = text::words(line@);
    assert(all.len() == words@.len());
    let n: usize = if words.len() < 3 {
        words.len()
    } else {
        3
    };
    let mut out: Vec<String> = Vec::new();
    let mut i: usize = 0;
    while i < n
        invariant
            i <= n <= words@.len(),
            all == text::views(words@),
            text::views(out@) == all.take(i as int),
        decreases n - i,
    {
        let ghost before = out@;
        out.push(text::copy(words[i].as_str()));
        assert(text::views(out@) =~= text::views(before).push(all[i as int]));
        assert(text::views(out@) =~= all.take(i + 1));
        i += 1;
    }
    out
}

// ---------------------------------------------------------------- NVIDIA

/// Whether a character can stand in a number.
pub open spec fn numeric(c: char) -> bool {
    text::is_digit(c) || c == '+' || c == '-' || c == '.' || c == 'e' || c == 'E'
}

/// The first run of characters that can stand in a number.
pub open spec fn leading_number(s: Seq<char>) -> Seq<char>
    decreases s.len(),
{
    if s.len() == 0 {
        Seq::empty()
    } else if numeric(s[0]) {
        numeric_run(s)
    } else {
        leading_number(s.drop_first())
    }
}

pub open spec fn numeric_run(s: Seq<char>) -> Seq<char>
    decreases s.len(),
{
    if s.len() == 0 || !numeric(s[0]) {
        Seq::empty()
    } else {
        seq![s[0]] + numeric_run(s.drop_first())
    }
}

fn is_numeric(c: char) -> (r: bool)
    ensures
        r == numeric(c),
{
    text::digit(c) || c == '+' || c == '-' || c == '.' || c == 'e' || c == 'E'
}

/// The number text in values such as `11.56 W` or `[N/A]`; it may be empty.
pub fn number_text(value: &str) -> (r: String)
    ensures
        r@ == leading_number(value@),
{
    let chars = text::chars_of(value);
    let n: usize = chars.len();
    let mut i: usize = 0;
    assert(chars@.skip(0) =~= chars@);
    while i < n && !is_numeric(chars[i])
        invariant
            i <= n == chars@.len(),
            chars@ == value@,
            leading_number(value@) == leading_number(chars@.skip(i as int)),
        decreases n - i,
    {
        assert(chars@.skip(i as int)[0] == chars@[i as int]);
        assert(chars@.skip(i as int).drop_first() =~= chars@.skip(i + 1));
        i += 1;
    }
    let ghost rest = chars@.skip(i as int);
    let start: usize = i;
    let mut out = String::new();
    proof {
        if i < n {
            assert(rest[0] == chars@[i as int]);
        }
        assert(leading_number(value@) == numeric_run(rest));
        assert(out@ + numeric_run(rest) =~= numeric_run(rest));
    }
    while i < n && is_numeric(chars[i])
        invariant
            start <= i <= n == chars@.len(),
            numeric_run(rest) == out@ + numeric_run(chars@.skip(i as int)),
        decreases n - i,
    {
        let ghost before = out@;
        assert(chars@.skip(i as int)[0] == chars@[i as int]);
        assert(chars@.skip(i as int).drop_first() =~= chars@.skip(i + 1));
        out.push(chars[i]);
        assert(out@ + numeric_run(chars@.skip(i + 1)) =~= before + (seq![chars@[i as int]]
            + numeric_run(chars@.skip(i + 1))));
        i += 1;
    }
    proof {
        if i < n {
            assert(chars@.skip(i as int)[0] == chars@[i as int]);
        }
        assert(out@ + numeric_run(chars@.skip(i as int)) =~= out@);
    }
    out
}

/// The values of one sample of `nvidia-smi`: the name, and the number texts of
/// the fields that were asked for.
#[derive(Debug)]
pub struct GpuReading {
    pub name: String,
    pub util_pct: Option<String>,
    pub mem_util_pct: Option<String>,
    pub temp_c: Option<String>,
    pub power_w: Option<String>,
    pub sm_mhz: Option<String>,
    pub vram_used_mib: Option<String>,
    pub vram_total_mib: Option<String>,
}

/// The value of a field: that at the last position of its name.
pub open spec fn field_value(
    names: Seq<Seq<char>>,
    values: Seq<Seq<char>>,
    name: Seq<char>,
) -> Option<Seq<char>>
    decreases names.len(),
{
    if names.len() == 0 {
        None
    } else if names.last() == name && names.len() <= values.len() {
        Some(values[names.len() - 1])
    } else {
        field_value(names.drop_last(), values, name)
    }
}

fn find_field(names: &Vec<String>, values: &Vec<String>, name: &str) -> (r: Option<String>)
    requires
        names@.len() <= values@.len(),
    ensures
        r matches Some(s) ==> field_value(
            text::views(names@),
            text::views(values@),
            name@,
        ) == Some(s@),
        r is None ==> field_value(text::views(names@), text::views(values@), name@) is None,
{
    let ghost all = text::views(names@);
    let ghost told = text::views(values@);
    let mut i: usize = names.len();
    assert(all.take(all.len() as int) =~= all);
    while i > 0
        invariant
            i <= names@.len() <= values@.len(),
            all == text::views(names@),
            told == text::views(values@),
            field_value(all, told, name@) == field_value(all.take(i as int), told, name@),
        decreases i,
    {
        assert(all.take(i as int).last() == names@[i - 1]@);
        assert(all.take(i as int).drop_last() =~= all.take(i - 1));
        if text::same(names[i - 1].as_str(), name) {
            return Some(text::copy(values[i - 1].as_str()));
        }
        i -= 1;
    }
    None
}

/// The number text of a field.
pub open spec fn field_number(
    names: Seq<Seq<char>>,
    values: Seq<Seq<char>>,
    name: Seq<char>,
) -> Option<Seq<char>> {
    match field_value(names, values, name) {
        Some(v) => Some(leading_number(v)),
        None => None,
    }
}

fn find_number(names: &Vec<String>, values: &Vec<String>, name: &str) -> (r: Option<String>)
    requires
        names@.len() <= values@.len(),
    ensures
        r matches Some(s) ==> field_number(
            text::views(names@),
            text::views(values@),
            name@,
        ) == Some(s@),
        r is None ==> field_number(text::views(names@), text::views(values@), name@) is None,
{
    match find_field(names, values, name) {
        Some(v) => Some(number_text(v.as_str())),
        None => None,
    }
}

/// The trimmed values of a comma-separated line.
pub open spec fn comma_values(line: Seq<char>) -> Seq<Seq<char>> {
    text::pieces(line, ',').map_values(|p: Seq<char>| text::trimmed(p))
}

/// An optional text as characters.
pub open spec fn chars_in(s: Option<String>) -> Option<Seq<char>> {
    match s {
        Some(s) => Some(s@),
        None => None,
    }
}

/// Whether a reading holds the values of a line for a list of fields.
pub open spec fn reads(reading: GpuReading, line: Seq<char>, fields: Seq<char>) -> bool {
    let names = text::pieces(fields, ',');
    let values = comma_values(line);
    &&& reading.name@ == match field_value(names, values, "name"@) {
        Some(name) => name,
        None => Seq::empty(),
    }
    &&& chars_in(reading.util_pct) == field_number(names, values, "utilization.gpu"@)
    &&& chars_in(reading.mem_util_pct) == field_number(names, values, "utilization.memory"@)
    &&& chars_in(reading.temp_c) == field_number(names, values, "temperature.gpu"@)
    &&& chars_in(reading.power_w) == field_number(names, values, "power.draw"@)
    &&& chars_in(reading.sm_mhz) == field_number(names, values, "clocks.current.sm"@)
    &&& chars_in(reading.vram_used_mib) == field_number(names, values, "memory.used"@)
    &&& chars_in(reading.vram_total_mib) == field_number(names, values, "memory.total"@)
}

fn split_values(line: &str) -> (r: Vec<String>)
    ensures
        text::views(r@) == comma_values(line@),
{
    let parts = text::split_char(line, ',');
    let ghost all = comma_values(line@);
    let mut out: Vec<String> = Vec::new();
    let mut i: usize = 0;
    while i < parts.len()
        invariant
            i <= parts@.len(),
            text::views(parts@) == text::pieces(line@, ','),
            all == comma_values(line@),
            text::views(out@) == all.take(i as int),
        decreases parts@.len() - i,
    {
        let ghost before = out@;
        assert(text::pieces(line@, ',')[i as int] == parts@[i as int]@);
        out.push(text::trim(parts[i].as_str()));
        assert(text::views(out@) =~= text::views(before).push(all[i as int]));
        assert(text::views(out@) =~= all.take(i + 1));
        i += 1;
    }
    assert(text::views(parts@).len() == parts@.len());
    assert(text::views(out@) =~= all);
    out
}

/// Reads a line of `nvidia-smi` for a list of fields; a line with fewer values
/// than fields is none.
pub fn parse_nvidia_line(line: &str, fields: &str) -> (r: Option<GpuReading>)
    ensures
        r matches Some(reading) ==> reads(reading, line@, fields@),
        r is None <==> text::pieces(line@, ',').len() < text::pieces(fields@, ',').len(),
{
    let values = split_values(line);
    let names = text::split_char(fields, ',');
    assert(text::views(values@).len() == values@.len());
    assert(text::views(names@).len() == names@.len());
    if values.len() < names.len() {
        return None;
    }
    let name = match find_field(&names, &values, "name") {
        Some(name) => name,
        None => String::new(),
    };
    assert(field_value(text::views(names@), text::views(values@), "name"@) is None ==> name@
        =~= Seq::empty());
    Some(
        GpuReading {
            name,
            util_pct: find_number(&names, &values, "utilization.gpu"),
            mem_util_pct: find_number(&names, &values, "utilization.memory"),
            temp_c: find_number(&names, &values, "temperature.gpu"),
            power_w: find_number(&names, &values, "power.draw"),
            sm_mhz: find_number(&names, &values, "clocks.current.sm"),
            vram_used_mib: find_number(&names, &values, "memory.used"),
            vram_total_mib: find_number(&names, &values, "memory.total"),
        },
    )
}

/// The field lists to try with `nvidia-smi`, the longest first.
pub open spec fn nvidia_candidates() -> Seq<Seq<char>> {
    seq![
        "name,utilization.gpu,utilization.memory,temperature.gpu,power.draw,clocks.current.sm,memory.used,memory.total"@,
        "name,utilization.gpu,temperature.gpu,memory.used,memory.total"@,
        "name,memory.used,memory.total"@,
    ]
}

pub fn nvidia_fields() -> (r: Vec<String>)
    ensures
        text::views(r@) == nvidia_candidates(),
{
    let mut out: Vec<String> = Vec::new();
    out.push(
        text::copy(
            "name,utilization.gpu,utilization.memory,temperature.gpu,power.draw,clocks.current.sm,memory.used,memory.total",
        ),
    );
    out.push(text::copy("name,utilization.gpu,temperature.gpu,memory.used,memory.total"));
    out.push(text::copy("name,memory.used,memory.total"));
    assert(text::views(out@) =~= nvidia_candidates());
    out
}

/// Whether the driver accepts a field list: the query succeeded and said
/// something.
pub fn fields_accepted(success: bool, output: &Vec<u8>) -> (r: bool)
    ensures
        r == (success && text::trimmed(text::lossy(output@)).len() > 0),
{
    if !success {
        return false;
    }
    let all = text::from_bytes(output);
    let told = text::trim(all.as_str());
    !text::is_empty(told.as_str())
}

// ---------------------------------------------------------------- GPUs in sysfs

/// Whether an entry of `/sys/class/drm` is a card: `cardN`, never `cardN-DP-1`
/// or `renderD128`.
pub fn is_card(name: &str) -> (r: bool)
    ensures
        r == (text::begins(name@, "card"@) && !name@.contains('-')),
{
    text::starts_with(name, "card") && !text::contains_char(name, '-')
}

/// Makers of GPUs that are read from sysfs.
#[derive(Debug, Clone, Copy, PartialEq, Eq, Structural)]
pub enum Vendor {
    Amd,
    Intel,
}

/// The maker behind a vendor id.
pub open spec fn vendor_in(id: Seq<char>) -> Option<Vendor> {
    let lower = text::ascii_lower(text::trimmed(id));
    if lower == "0x1002"@ {
        Some(Vendor::Amd)
    } else if lower == "0x8086"@ {
        Some(Vendor::Intel)
    } else {
        None
    }
}

pub fn vendor_of(id: &str) -> (r: Option<Vendor>)
    ensures
        r == vendor_in(id@),
{
    let trimmed = text::trim(id);
    let lower = text::to_ascii_lower(trimmed.as_str());
    if text::same(lower.as_str(), "0x1002") {
        Some(Vendor::Amd)
    } else if text::same(lower.as_str(), "0x8086") {
        Some(Vendor::Intel)
    } else {
        None
    }
}

impl Vendor {
    /// The word for the maker in the documents.
    pub fn word(self) -> (r: &'static str)
        ensures
            r@ == (match self {
                Vendor::Amd => "amd"@,
                Vendor::Intel => "intel"@,
            }),
    {
        match self {
            Vendor::Amd => "amd",
            Vendor::Intel => "intel",
        }
    }
}

/// The device id without whitespace, in lower case.
pub fn device_id(id: &str) -> (r: String)
    ensures
        r@ == text::ascii_lower(text::trimmed(id@)),
{
    let trimmed = text::trim(id);
    text::to_ascii_lower(trimmed.as_str())
}

/// The name of a GPU without the help of `lspci`.
pub open spec fn plain_gpu_name(vendor: Vendor, device: Seq<char>) -> Seq<char> {
    (match vendor {
        Vendor::Amd => "AMD"@,
        Vendor::Intel => "Intel"@,
    }) + " GPU "@ + device
}

/// The name of a GPU: the third quoted field of `lspci -mm` where it tells one.
pub open spec fn gpu_name(lspci: Option<Seq<char>>, device: Seq<char>, vendor: Vendor) -> Seq<
    char,
> {
    match lspci {
        Some(output) => {
            let parts = text::pieces(output, '"');
            if parts.len() >= 6 {
                let name = text::trimmed(parts[5]);
                if name.len() == 0 || text::begins(name, "Device"@) {
                    text::trimmed(
                        (match vendor {
                            Vendor::Amd => "AMD"@,
                            Vendor::Intel => "INTEL"@,
                        }) + " "@ + name,
                    )
                } else {
                    name
                }
            } else {
                plain_gpu_name(vendor, device)
            }
        },
        None => plain_gpu_name(vendor, device),
    }
}

/// The name of a GPU. `lspci` is the output of `lspci -mm` for its slot, where
/// there is one; `device` is its device id.
pub fn pci_name(lspci: Option<&Vec<u8>>, device: &str, vendor: Vendor) -> (r: String)
    ensures
        r@ == gpu_name(
            match lspci {
                Some(bytes) => Some(text::lossy(bytes@)),
                None => None,
            },
            device@,
            vendor,
        ),
{
    if let Some(bytes) = lspci {
        let output = text::from_bytes(bytes);
        let parts = text::split_char(output.as_str(), '"');
        assert(text::pieces(output@, '"').len() == parts@.len());
        if parts.len() >= 6 {
            assert(text::pieces(output@, '"')[5] == parts@[5]@);
            let name = text::trim(parts[5].as_str());
            if text::is_empty(name.as_str()) || text::starts_with(name.as_str(), "Device") {
                let maker = match vendor {
                    Vendor::Amd => "AMD",
                    Vendor::Intel => "INTEL",
                };
                let full = text::cat3(maker, " ", name.as_str());
                return text::trim(full.as_str());
            }
            return name;
        }
    }
    let maker = match vendor {
        Vendor::Amd => "AMD",
        Vendor::Intel => "Intel",
    };
    text::cat3(maker, " GPU ", device)
}

/// The name under which several GPUs are shown together.
pub open spec fn joint_name_of(names: Seq<Seq<char>>) -> Seq<char> {
    if names.len() == 0 {
        Seq::empty()
    } else if names.len() == 1 {
        names[0]
    } else {
        names[0] + " (+"@ + text::decimal((names.len() - 1) as nat) + ")"@
    }
}

pub fn joint_name(names: &Vec<String>) -> (r: String)
    ensures
        r@ == joint_name_of(text::views(names@)),
{
    let n: usize = names.len();
    assert(text::views(names@).len() == n);
    if n == 0 {
        let r = String::new();
        assert(r@ =~= Seq::empty());
        r
    } else if n == 1 {
        text::copy(names[0].as_str())
    } else {
        let more = text::from_u64((n - 1) as u64);
        text::cat4(names[0].as_str(), " (+", more.as_str(), ")")
    }
}

/// The processor is called by its model name, else by its hardware, else by its
/// cores, else by its board, else just `CPU`.
pub proof fn processors_are_named(cpuinfo: Seq<char>, boards: Seq<Seq<char>>)
    ensures
        ({
            let lines = text::line_list(cpuinfo);
            let named = first_value(lines, "model name"@);
            let hardware = first_value(lines, "Hardware"@);
            let cores = cores_in(lines);
            &&& named matches Some(n) ==> processor(cpuinfo, boards) == n
            &&& named is None ==> (hardware matches Some(n) ==> processor(cpuinfo, boards) == n)
            &&& named is None && hardware is None && cores.len() > 0 ==> processor(cpuinfo, boards)
                == "ARM "@ + text::joined(cores, " + "@)
            &&& named is None && hardware is None && cores.len() == 0 ==> (match board_in(boards) {
                Some(n) => processor(cpuinfo, boards) == n,
                None => processor(cpuinfo, boards) == "CPU"@,
            })
        }),
{
}

/// A value stands behind the colon of the first line with its name that has one.
pub proof fn values_stand_behind_colons(
    lines: Seq<Seq<char>>,
    prefix: Seq<char>,
    gap: Seq<char>,
    value: Seq<char>,
    other: Seq<char>,
)
    requires
        !gap.contains(':'),
        text::trimmed(value).len() > 0,
        value_after(other, prefix) is None,
    ensures
        first_value(seq![prefix + gap.push(':') + value] + lines, prefix) == Some(
            text::trimmed(value),
        ),
        first_value(seq![other] + lines, prefix) == first_value(lines, prefix),
        first_value(Seq::empty(), prefix) is None,
        !text::begins(other, prefix) ==> value_after(other, prefix) is None,
{
    let line = prefix + gap.push(':') + value;
    assert(line.take(prefix.len() as int) =~= prefix);
    assert(line.skip(prefix.len() as int) =~= gap.push(':') + value);
    text::cuts_at_the_first_mark(gap, value, ':');
    assert((seq![line] + lines)[0] == line);
    assert((seq![other] + lines).drop_first() =~= lines);
}

/// ARM cores are known by their part numbers.
pub proof fn part_numbers_name_cores()
    ensures
        core_of(0xD03) == Some("Cortex-A53"@),
        core_of(0xD05) == Some("Cortex-A55"@),
        core_of(0xD07) == Some("Cortex-A57"@),
        core_of(0xD08) == Some("Cortex-A72"@),
        core_of(0xD09) == Some("Cortex-A73"@),
        core_of(0xD0A) == Some("Cortex-A75"@),
        core_of(0xD0B) == Some("Cortex-A76"@),
        core_of(0xD0D) == Some("Cortex-A77"@),
        core_of(0xD41) == Some("Cortex-A78"@),
        core_of(0xD44) == Some("Cortex-X1"@),
        core_of(0xD46) == Some("Cortex-A510"@),
        core_of(0xD47) == Some("Cortex-A710"@),
        core_of(0xD48) == Some("Cortex-X2"@),
        core_of(0xD4D) == Some("Cortex-A715"@),
        core_of(0xD4E) == Some("Cortex-X3"@),
        core_of(0xD80) == Some("Cortex-A520"@),
        core_of(0xD81) == Some("Cortex-A720"@),
        core_of(0xD82) == Some("Cortex-X4"@),
        core_of(0xD85) == Some("Cortex-X925"@),
        core_of(0xD87) == Some("Cortex-A725"@),
{
}

/// Every kind of core is listed once, in the order of its first appearance.
pub proof fn cores_are_listed_once(lines: Seq<Seq<char>>, line: Seq<char>)
    ensures
        cores_in(Seq::empty()).len() == 0,
        core_at(line) is None ==> cores_in(lines.push(line)) == cores_in(lines),
        core_at(line) matches Some(name) ==> {
            &&& cores_in(lines).contains(name) ==> cores_in(lines.push(line)) == cores_in(lines)
            &&& !cores_in(lines).contains(name) ==> cores_in(lines.push(line)) == cores_in(
                lines,
            ).push(name)
        },
{
    assert(lines.push(line).drop_last() =~= lines);
}

/// The number of a core stands in hexadecimal digits behind the colon.
pub proof fn parts_are_hexadecimal(gap: Seq<char>, part: nat)
    requires
        !gap.contains(':'),
        part <= u32::MAX,
    ensures
        core_at("CPU part"@ + gap.push(':') + (seq![' ', '0', 'x'] + text::digits(part, 16)))
            == core_of(part as int),
{
    reveal_strlit("CPU part");
    let digits = text::digits(part, 16);
    let value = seq![' ', '0', 'x'] + digits;
    let line = "CPU part"@ + gap.push(':') + value;
    text::digits_denote_their_number(part, 16);
    text::decimals_are_read_back(part, u32::MAX as int);
    assert(line.take(8) =~= "CPU part"@);
    assert(line.skip(8) =~= gap.push(':') + value);
    text::cuts_at_the_first_mark(gap, value, ':');
    let marked = seq!['0', 'x'] + digits;
    assert(value =~= seq![' '] + marked + Seq::<char>::empty());
    assert(text::is_white(' ') && !text::is_white('0'));
    assert(marked.last() == digits.last());
    assert(digits.last() == digits[digits.len() - 1]);
    text::trimming_drops_the_whitespace(seq![' '], marked, Seq::empty());
    assert(marked.skip(2) =~= digits);
    if digits.len() >= 2 {
        assert(digits[1] != 'x') by {
            assert(text::digit_value(digits[1]) < 16);
        }
    }
    assert(without_marks(digits) == digits);
}

/// A field of the memory file is the second word of its last line.
pub proof fn memory_fields_are_second_words(lines: Seq<Seq<char>>, line: Seq<char>, other: Seq<char>, name: Seq<char>)
    requires
        text::begins(line, name),
        !text::begins(other, name),
    ensures
        text::words(line).len() > 1 ==> meminfo_word(lines.push(line), name) == Some(
            text::words(line)[1],
        ),
        text::words(line).len() <= 1 ==> meminfo_word(lines.push(line), name) is None,
        meminfo_word(lines.push(other), name) == meminfo_word(lines, name),
        meminfo_word(Seq::empty(), name) is None,
{
    assert(lines.push(other).drop_last() =~= lines);
}

/// The load is the first three words.
pub proof fn loads_are_three_words(line: Seq<char>)
    ensures
        text::words(line).len() >= 3 ==> load_words(line) == seq![
            text::words(line)[0],
            text::words(line)[1],
            text::words(line)[2],
        ],
        text::words(line).len() < 3 ==> load_words(line) == text::words(line),
{
    let w = text::words(line);
    if w.len() >= 3 {
        assert(load_words(line) =~= seq![w[0], w[1], w[2]]);
    } else {
        assert(load_words(line) =~= w);
    }
}

/// The number in a value is its first run of digits, signs, points and exponents.
pub proof fn numbers_lead(before: Seq<char>, number: Seq<char>, behind: Seq<char>)
    requires
        forall|i: int| 0 <= i < before.len() ==> !numeric(before[i]),
        forall|i: int| 0 <= i < number.len() ==> numeric(number[i]),
        number.len() > 0,
        behind.len() == 0 || !numeric(behind[0]),
    ensures
        leading_number(before + number + behind) == number,
    decreases before.len(),
{
    let s = before + number + behind;
    if before.len() > 0 {
        assert(s.drop_first() =~= before.drop_first() + number + behind);
        numbers_lead(before.drop_first(), number, behind);
    } else {
        assert(s =~= number + behind);
        assert(s[0] == number[0]);
        lemma_numeric_run(number, behind);
    }
}

proof fn lemma_numeric_run(number: Seq<char>, behind: Seq<char>)
    requires
        forall|i: int| 0 <= i < number.len() ==> numeric(number[i]),
        behind.len() == 0 || !numeric(behind[0]),
    ensures
        numeric_run(number + behind) == number,
    decreases number.len(),
{
    let s = number + behind;
    if number.len() > 0 {
        assert(s.drop_first() =~= number.drop_first() + behind);
        lemma_numeric_run(number.drop_first(), behind);
        assert(seq![s[0]] + number.drop_first() =~= number);
    } else {
        assert(s =~= behind);
        assert(numeric_run(s) =~= number);
    }
}

/// Each value of a line belongs to the field at its position.
pub proof fn values_stand_at_their_fields(names: Seq<Seq<char>>, values: Seq<Seq<char>>, i: int)
    requires
        0 <= i < names.len(),
        names.len() <= values.len(),
        forall|j: int| i < j < names.len() ==> #[trigger] names[j] != names[i],
    ensures
        field_value(names, values, names[i]) == Some(values[i]),
        field_number(names, values, names[i]) == Some(leading_number(values[i])),
    decreases names.len(),
{
    if i < names.len() - 1 {
        let shorter = names.drop_last();
        assert(names[names.len() - 1] != names[i]);
        assert forall|j: int| i < j < shorter.len() implies #[trigger] shorter[j] != shorter[i] by {
            assert(shorter[j] == names[j]);
        }
        values_stand_at_their_fields(shorter, values, i);
    }
}

/// A field that was not asked for has no value.
pub proof fn other_fields_have_no_value(names: Seq<Seq<char>>, values: Seq<Seq<char>>, name: Seq<char>)
    requires
        !names.contains(name),
    ensures
        field_value(names, values, name) is None,
    decreases names.len(),
{
    if names.len() > 0 {
        assert(names.contains(names.last()));
        let shorter = names.drop_last();
        assert forall|j: int| 0 <= j < shorter.len() implies shorter[j] != name by {
            assert(names.contains(names[j]));
        }
        other_fields_have_no_value(shorter, values, name);
    }
}

/// Each value of a reading is that of the field which measures it.
pub proof fn readings_take_their_fields(reading: GpuReading, line: Seq<char>, fields: Seq<char>)
    requires
        reads(reading, line, fields),
    ensures
        ({
            let names = text::pieces(fields, ',');
            let values = comma_values(line);
            &&& field_value(names, values, "name"@) matches Some(n) ==> reading.name@ == n
            &&& chars_in(reading.util_pct) == field_number(names, values, "utilization.gpu"@)
            &&& chars_in(reading.mem_util_pct) == field_number(names, values, "utilization.memory"@)
            &&& chars_in(reading.temp_c) == field_number(names, values, "temperature.gpu"@)
            &&& chars_in(reading.power_w) == field_number(names, values, "power.draw"@)
            &&& chars_in(reading.sm_mhz) == field_number(names, values, "clocks.current.sm"@)
            &&& chars_in(reading.vram_used_mib) == field_number(names, values, "memory.used"@)
            &&& chars_in(reading.vram_total_mib) == field_number(names, values, "memory.total"@)
        }),
{
}

/// The longest list of fields is tried first, and the shortest still asks for the
/// name and the memory.
pub proof fn field_lists_get_shorter()
    ensures
        nvidia_candidates().len() == 3,
        nvidia_candidates()[0]
            == "name,utilization.gpu,utilization.memory,temperature.gpu,power.draw,clocks.current.sm,memory.used,memory.total"@,
        nvidia_candidates()[1] == "name,utilization.gpu,temperature.gpu,memory.used,memory.total"@,
        nvidia_candidates()[2] == "name,memory.used,memory.total"@,
{
}

/// The maker of a card is known by its number, in any case and with whitespace
/// around it.
pub proof fn makers_have_numbers(id: Seq<char>)
    ensures
        ({
            let lower = text::ascii_lower(text::trimmed(id));
            &&& vendor_in(id) == Some(Vendor::Amd) <==> lower == "0x1002"@
            &&& vendor_in(id) == Some(Vendor::Intel) <==> lower == "0x8086"@
        }),
{
    reveal_strlit("0x1002");
    reveal_strlit("0x8086");
    assert("0x1002"@[2] == '1' && "0x8086"@[2] == '8');
}

/// A card is called what the listing of the bus calls it; without a listing it is
/// called by its maker and its number.
pub proof fn cards_are_named(output: Seq<char>, device: Seq<char>, vendor: Vendor)
    ensures
        ({
            let parts = text::pieces(output, '"');
            let maker = if vendor is Amd {
                "AMD GPU "@
            } else {
                "Intel GPU "@
            };
            &&& gpu_name(None, device, vendor) == maker + device
            &&& parts.len() < 6 ==> gpu_name(Some(output), device, vendor) == maker + device
            &&& parts.len() >= 6 && text::trimmed(parts[5]).len() > 0 && !text::begins(
                text::trimmed(parts[5]),
                "Device"@,
            ) ==> gpu_name(Some(output), device, vendor) == text::trimmed(parts[5])
        }),
{
    reveal_strlit("AMD");
    reveal_strlit("Intel");
    reveal_strlit(" GPU ");
    reveal_strlit("AMD GPU ");
    reveal_strlit("Intel GPU ");
    assert("AMD"@ + " GPU "@ + device =~= "AMD GPU "@ + device);
    assert("Intel"@ + " GPU "@ + device =~= "Intel GPU "@ + device);
}

/// Several cards are shown under the name of the first and the number of the
/// others.
pub proof fn cards_share_a_name(names: Seq<Seq<char>>)
    ensures
        names.len() == 0 ==> joint_name_of(names).len() == 0,
        names.len() == 1 ==> joint_name_of(names) == names[0],
        names.len() > 1 ==> joint_name_of(names) == names[0] + " (+"@ + text::decimal(
            (names.len() - 1) as nat,
        ) + ")"@,
{
}

/// The board is the first name that is not empty, without zero bytes at its end
/// and whitespace around it.
pub proof fn boards_are_named(boards: Seq<Seq<char>>, name: Seq<char>)
    ensures
        board_in(Seq::empty()) is None,
        text::trimmed(without_nuls(name)).len() > 0 ==> board_in(seq![name] + boards) == Some(
            text::trimmed(without_nuls(name)),
        ),
        text::trimmed(without_nuls(name)).len() == 0 ==> board_in(seq![name] + boards) == board_in(
            boards,
        ),
        without_nuls(name.push('\0')) == without_nuls(name),
        name.len() == 0 || name.last() != '\0' ==> without_nuls(name) == name,
{
    assert((seq![name] + boards).drop_first() =~= boards);
    assert((seq![name] + boards)[0] == name);
    assert(name.push('\0').drop_last() =~= name);
}

} // verus!
