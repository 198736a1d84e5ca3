//! The text formats of `/proc` and `/etc/passwd` that describe processes.
use crate::text;
use vstd::prelude::*;

verus! {

/// Longest command line that is shown or sent.
pub const CMD_MAX: usize = 160;

/// The fields of a `/proc/<pid>/stat` line that matter here. The two times are
/// the words as they stand in the line.
#[derive(Debug)]
pub struct StatLine {
    pub pid: u32,
    pub name: String,
    pub state: String,
    pub ppid: u32,
    pub utime: String,
    pub stime: String,
}

/// A stat line as characters.
pub struct Stat {
    pub pid: int,
    pub name: Seq<char>,
    pub state: Seq<char>,
    pub ppid: int,
    pub utime: Seq<char>,
    pub stime: Seq<char>,
}

impl View for StatLine {
    type V = Stat;

    open spec fn view(&self) -> Stat {
        Stat {
            pid: self.pid as int,
            name: self.name@,
            state: self.state@,
            ppid: self.ppid as int,
            utime: self.utime@,
            stime: self.stime@,
        }
    }
}

/// A 32-bit number, or zero.
pub open spec fn number_or_zero(s: Seq<char>) -> int {
    match text::unsigned_literal(s, 10, u32::MAX as int) {
        Some(v) => v,
        None => 0,
    }
}

/// The command name stands between the first `(` and the last `)`: it may hold
/// spaces and parentheses itself. The numbers follow: state, parent, pgrp,
/// session, tty_nr, tpgid, flags, minflt, cminflt, majflt, cmajflt, utime and
/// stime.
pub open spec fn stat_of(line: Seq<char>) -> Option<Stat> {
    let open = text::first_at(line, '(') as int;
    match text::last_at(line, ')') {
        Some(close) => {
            if open >= line.len() || close <= open {
                None
            } else {
                let rest = text::words(line.skip(close + 1));
                match text::unsigned_literal(
                    text::trimmed(line.take(open)),
                    10,
                    u32::MAX as int,
                ) {
                    Some(pid) => if rest.len() < 13 {
                        None
                    } else {
                        Some(
                            Stat {
                                pid,
                                name: line.subrange(open + 1, close),
                                state: rest[0],
                                ppid: number_or_zero(rest[1]),
                                utime: rest[11],
                                stime: rest[12],
                            },
                        )
                    },
                    None => None,
                }
            }
        },
        None => None,
    }
}

/// Splits one stat line.
pub fn parse_stat_line(line: &str) -> (r: Option<StatLine>)
    ensures
        r matches Some(s) ==> stat_of(line@) == Some(s@),
        r is None ==> stat_of(line@) is None,
{
    proof {
        text::lemma_first_at(line@, '(');
        text::lemma_last_at(line@, ')');
    }
    let (head, tail) = match text::split_once(line, '(') {
        Some(p) => p,
        None => return None,
    };
    let (_, after) = match text::rsplit_once(line, ')') {
        Some(p) => p,
        None => return None,
    };
    let n: usize = line.unicode_len();
    let open: usize = head.as_str().unicode_len();
    let after_len: usize = after.as_str().unicode_len();
    let close: usize = n - after_len - 1;
    assert(open == text::first_at(line@, '('));
    assert(Some(close as int) == text::last_at(line@, ')'));
    if close <= open {
        return None;
    }
    let number = text::trim(head.as_str());
    let pid = match text::parse_u32(number.as_str()) {
        Some(v) => v,
        None => return None,
    };
    let name = text::take_chars(tail.as_str(), close - open - 1);
    assert(name@ =~= line@.subrange(open + 1, close as int));
    let rest = text::split_words(after.as_str());
    assert(text::words(after@).len() == rest@.len());
    if rest.len() < 13 {
        return None;
    }
    assert(forall|i: int| 0 <= i < rest@.len() ==> text::words(after@)[i] == rest@[i]@);
    let ppid: u32 = match text::parse_u32(rest[1].as_str()) {
        Some(v) => v,
        None => 0,
    };
    Some(
        StatLine {
            pid,
            name,
            state: text::copy(rest[0].as_str()),
            ppid,
            utime: text::copy(rest[11].as_str()),
            stime: text::copy(rest[12].as_str()),
        },
    )
}

/// The number in the first word behind a prefix, in the last line with it.
pub open spec fn field_of(lines: Seq<Seq<char>>, prefix: Seq<char>, max: int) -> Option<int> {
    match text::last_rest(lines, prefix) {
        Some(rest) => match text::first_word(rest) {
            Some(word) => text::unsigned_literal(word, 10, max),
            None => None,
        },
        None => None,
    }
}

/// The user id and the resident memory in kB from `/proc/<pid>/status`.
pub fn parse_status(status: &str) -> (r: (Option<u32>, u64))
    ensures
        r.0 matches Some(uid) ==> field_of(text::line_list(status@), "Uid:"@, u32::MAX as int)
            == Some(uid as int),
        r.0 is None ==> field_of(text::line_list(status@), "Uid:"@, u32::MAX as int) is None,
        r.1 == (match field_of(text::line_list(status@), "VmRSS:"@, u64::MAX as int) {
            Some(kb) => kb,
            None => 0,
        }),
{
    let lines = text::lines(status);
    let uid: Option<u32> = match text::find_last_rest(&lines, "Uid:") {
        Some(rest) => match text::leading_word(rest.as_str()) {
            Some(word) => text::parse_u32(word.as_str()),
            None => None,
        },
        None => None,
    };
    let rss: Option<u64> = match text::find_last_rest(&lines, "VmRSS:") {
        Some(rest) => match text::leading_word(rest.as_str()) {
            Some(word) => text::parse_u64(word.as_str()),
            None => None,
        },
        None => None,
    };
    let kb: u64 = match rss {
        Some(kb) => kb,
        None => 0,
    };
    (uid, kb)
}

/// The user that a line of `/etc/passwd` describes.
pub open spec fn user_in(line: Seq<char>) -> Option<(u32, Seq<char>)> {
    let parts = text::pieces(line, ':');
    if parts.len() < 3 {
        None
    } else {
        match text::unsigned_literal(parts[2], 10, u32::MAX as int) {
            Some(uid) => Some((uid as u32, parts[0])),
            None => None,
        }
    }
}

/// The users that the lines describe, in order.
pub open spec fn users_in(lines: Seq<Seq<char>>) -> Seq<(u32, Seq<char>)>
    decreases lines.len(),
{
    if lines.len() == 0 {
        Seq::empty()
    } else {
        let rest = users_in(lines.drop_first());
        match user_in(lines[0]) {
            Some(user) => seq![user] + rest,
            None => rest,
        }
    }
}

/// A user table as characters.
pub open spec fn table(users: Seq<(u32, String)>) -> Seq<(u32, Seq<char>)> {
    users.map_values(|u: (u32, String)| (u.0, u.1@))
}

/// Reads `/etc/passwd`.
pub fn user_names(passwd: &str) -> (r: Vec<(u32, String)>)
    ensures
        table(r@) == users_in(text::line_list(passwd@)),
{
    let lines = text::lines(passwd);
    let ghost all = text::line_list(passwd@);
    let mut out: Vec<(u32, String)> = Vec::new();
    let mut i: usize = 0;
    assert(all.skip(0) =~= all);
    assert(table(out@) =~= Seq::<(u32, Seq<char>)>::empty());
    while i < lines.len()
        invariant
            i <= lines@.len(),
            all == text::views(lines@),
            users_in(all) == table(out@) + users_in(all.skip(i as int)),
        decreases lines@.len() - i,
    {
        let ghost rest = all.skip(i as int);
        let ghost before = out@;
        assert(rest.drop_first() =~= all.skip(i + 1));
        assert(rest[0] == lines@[i as int]@);
        let parts = text::split_char(lines[i].as_str(), ':');
        assert(text::pieces(rest[0], ':').len() == parts@.len());
        if parts.len() >= 3 {
            assert(text::pieces(rest[0], ':')[0] == parts@[0]@);
            assert(text::pieces(rest[0], ':')[2] == parts@[2]@);
            if let Some(uid) = text::parse_u32(parts[2].as_str()) {
                out.push((uid, text::copy(parts[0].as_str())));
                assert(table(out@) =~= table(before) + seq![(uid, parts@[0]@)]);
                assert(users_in(all) =~= table(out@) + users_in(all.skip(i + 1)));
            }
        }
        i += 1;
    }
    assert(all.skip(all.len() as int) =~= Seq::empty());
    assert(users_in(all) =~= table(out@));
    out
}

/// The name of a user id; the last entry wins.
pub open spec fn name_of(users: Seq<(u32, Seq<char>)>, uid: u32) -> Option<Seq<char>>
    decreases users.len(),
{
    if users.len() == 0 {
        None
    } else if users.last().0 == uid {
        Some(users.last().1)
    } else {
        name_of(users.drop_last(), uid)
    }
}

/// How the owner of a process is shown: by name, by number, or as `-`.
pub open spec fn owner(users: Seq<(u32, Seq<char>)>, uid: Option<u32>) -> Seq<char> {
    match uid {
        Some(id) => match name_of(users, id) {
            Some(name) => name,
            None => text::decimal(id as nat),
        },
        None => "-"@,
    }
}

pub fn owner_of(users: &Vec<(u32, String)>, uid: Option<u32>) -> (r: String)
    ensures
        r@ == owner(table(users@), uid),
{
    let id = match uid {
        Some(id) => id,
        None => return text::copy("-"),
    };
    let ghost all = table(users@);
    let mut i: usize = users.len();
    assert(all.take(users@.len() as int) =~= all);
    while i > 0
        invariant
            i <= users@.len(),
            all == table(users@),
            name_of(all, id) == name_of(all.take(i as int), id),
            uid == Some(id),
        decreases i,
    {
        assert(all.take(i as int).last() == (users@[i - 1].0, users@[i - 1].1@));
        assert(all.take(i as int).drop_last() =~= all.take(i - 1));
        if users[i - 1].0 == id {
            return text::copy(users[i - 1].1.as_str());
        }
        i -= 1;
    }
    text::from_u64(id as u64)
}

/// The parts of a NUL-separated command line that are not empty, as text.
pub open spec fn arguments(bytes: Seq<u8>) -> Seq<Seq<char>>
    decreases bytes.len(),
    via arguments_decreases
{
    if bytes.len() == 0 {
        Seq::empty()
    } else {
        let n = part_len(bytes);
        let rest = if n < bytes.len() {
            arguments(bytes.skip(n + 1))
        } else {
            Seq::empty()
        };
        if n == 0 {
            rest
        } else {
            seq![text::lossy(bytes.take(n as int))] + rest
        }
    }
}

/// The number of bytes before the first NUL.
pub open spec fn part_len(bytes: Seq<u8>) -> int
    decreases bytes.len(),
{
    if bytes.len() == 0 || bytes[0] == 0 {
        0
    } else {
        1 + part_len(bytes.drop_first())
    }
}

proof fn lemma_part_len(bytes: Seq<u8>)
    ensures
        0 <= part_len(bytes) <= bytes.len(),
    decreases bytes.len(),
{
    if bytes.len() > 0 && bytes[0] != 0 {
        lemma_part_len(bytes.drop_first());
    }
}

#[via_fn]
proof fn arguments_decreases(bytes: Seq<u8>) {
    lemma_part_len(bytes);
}

/// The command line of a process: its arguments, or the bracketed name of a
/// process that has none, cut for display.
pub open spec fn command_of(bytes: Seq<u8>, name: Seq<char>) -> Seq<char> {
    let joined = text::joined(arguments(bytes), " "@);
    let shown = if joined.len() == 0 {
        "["@ + name + "]"@
    } else {
        joined
    };
    text::shortened(shown, CMD_MAX as nat)
}

fn split_arguments(bytes: &Vec<u8>) -> (r: Vec<String>)
    ensures
        text::views(r@) == arguments(bytes@),
{
    let n: usize = bytes.len();
    let mut out: Vec<String> = Vec::new();
    let mut start: usize = 0;
    assert(bytes@.skip(0) =~= bytes@);
    assert(text::views(out@) =~= Seq::<Seq<char>>::empty());
    while start < n
        invariant
            start <= n == bytes@.len(),
            arguments(bytes@) == text::views(out@) + arguments(bytes@.skip(start as int)),
        decreases n - start,
    {
        let ghost rest = bytes@.skip(start as int);
        let ghost before = out@;
        let mut part: Vec<u8> = Vec::new();
        let mut i: usize = start;
        assert(rest.skip(0) =~= rest);
        while i < n && bytes[i] != 0
            invariant
                start <= i <= n == bytes@.len(),
                rest == bytes@.skip(start as int),
                part@ == bytes@.subrange(start as int, i as int),
                part_len(rest) == (i - start) + part_len(rest.skip(i - start)),
            decreases n - i,
        {
            assert(rest.skip(i - start)[0] == bytes@[i as int]);
            assert(rest.skip(i - start).drop_first() =~= rest.skip(i + 1 - start));
            part.push(bytes[i]);
            i += 1;
        }
        proof {
            if i < n {
                assert(rest.skip(i - start)[0] == bytes@[i as int]);
            }
            assert(part_len(rest) == i - start);
            assert(part@ =~= rest.take(i - start));
            if i < n {
                assert(rest.skip(i - start + 1) =~= bytes@.skip(i + 1));
            }
        }
        let ghost later = if i < n {
            arguments(bytes@.skip(i + 1))
        } else {
            Seq::empty()
        };
        if part.len() > 0 {
            let argument = text::from_bytes(&part);
            out.push(argument);
            assert(text::views(out@) =~= text::views(before) + seq![text::lossy(part@)]);
        }
        assert(arguments(bytes@) =~= text::views(out@) + later);
        if i < n {
            start = i + 1;
        } else {
            assert(bytes@.skip(n as int) =~= Seq::empty());
            start = n;
        }
    }
    assert(bytes@.skip(n as int) =~= Seq::empty());
    assert(arguments(bytes@) =~= text::views(out@));
    out
}

/// The command line to show for a process; `bytes` is empty where the file
/// could not be read.
pub fn command_line(bytes: &Vec<u8>, name: &str) -> (r: String)
    ensures
        r@ == command_of(bytes@, name@),
{
    let parts = split_arguments(bytes);
    let joined = text::join(&parts, " ");
    if text::is_empty(joined.as_str()) {
        let bracketed = text::cat3("[", name, "]");
        text::shorten(bracketed.as_str(), CMD_MAX)
    } else {
        text::shorten(joined.as_str(), CMD_MAX)
    }
}

/// The words behind `cpu` in the first line of `/proc/stat`, if it is the line
/// of all cores together.
pub open spec fn cpu_words(stat: Seq<char>) -> Option<Seq<Seq<char>>> {
    let lines = text::line_list(stat);
    if lines.len() == 0 {
        None
    } else {
        let words = text::words(lines[0]);
        if words.len() == 0 || words[0] != "cpu"@ {
            None
        } else {
            Some(words.drop_first())
        }
    }
}

/// The counters of all cores together, as they stand in `/proc/stat`.
pub fn cpu_counters(stat: &str) -> (r: Option<Vec<String>>)
    ensures
        r matches Some(v) ==> cpu_words(stat@) == Some(text::views(v@)),
        r is None ==> cpu_words(stat@) is None,
{
    let lines = text::lines(stat);
    assert(text::line_list(stat@).len() == lines@.len());
    if lines.len() == 0 {
        return None;
    }
    assert(text::line_list(stat@)[0] == lines@[0]@);
    let words = text::split_words(lines[0].as_str());
    assert(text::words(lines@[0]@).len() == words@.len());
    if words.len() == 0 {
        return None;
    }
    assert(text::words(lines@[0]@)[0] == words@[0]@);
    if !text::same(words[0].as_str(), "cpu") {
        return None;
    }
    let rest = text::copy_from(&words, 1);
    assert(text::views(rest@) =~= text::words(lines@[0]@).drop_first());
    Some(rest)
}

/// The process id that a directory name under `/proc` stands for.
pub fn process_id(name: &str) -> (r: Option<u32>)
    ensures
        r matches Some(v) ==> text::unsigned_literal(name@, 10, u32::MAX as int) == Some(v as int),
        r is None ==> text::unsigned_literal(name@, 10, u32::MAX as int) is None,
{
    text::parse_u32(name)
}

/// The command name stands between the first opening and the last closing
/// parenthesis, whatever it holds; behind it come the state, the parent and, as
/// the twelfth and thirteenth words, the two times.
pub proof fn names_stand_between_parentheses(
    pid: nat,
    name: Seq<char>,
    rest: Seq<char>,
)
    requires
        pid <= u32::MAX,
        !rest.contains(')'),
        text::words(rest).len() >= 13,
    ensures
        stat_of(text::decimal(pid).push(' ').push('(') + name.push(')') + rest) matches Some(s) && {
            &&& s.pid == pid
            &&& s.name == name
            &&& s.state == text::words(rest)[0]
            &&& text::unsigned_literal(text::words(rest)[1], 10, 0xffff_ffff) matches Some(p)
                ==> s.ppid == p
            &&& s.utime == text::words(rest)[11]
            &&& s.stime == text::words(rest)[12]
        },
{
    let head = text::decimal(pid).push(' ');
    let line = head.push('(') + name.push(')') + rest;
    text::digits_denote_their_number(pid, 10);
    text::decimals_are_read_back(pid, u32::MAX as int);
    let number = text::decimal(pid);
    assert forall|i: int| 0 <= i < head.len() implies head[i] != '(' by {
        if i < number.len() {
            assert(head[i] == number[i]);
            assert(text::is_digit(number[i]));
        }
    }
    text::lemma_first_at(line, '(');
    text::lemma_last_at(line, ')');
    let open = head.len() as int;
    let close = (head.len() + 1 + name.len()) as int;
    assert(line[open] == '(');
    assert forall|i: int| 0 <= i < open implies line[i] != '(' by {
        assert(line[i] == head[i]);
    }
    assert(line[close] == ')');
    assert forall|i: int| close < i < line.len() implies line[i] != ')' by {
        assert(line[i] == rest[i - close - 1]);
        assert(rest.contains(rest[i - close - 1]));
    }
    assert(text::first_at(line, '(') == open);
    assert(text::last_at(line, ')') == Some(close));
    assert(line.take(open) =~= head);
    assert(line.subrange(open + 1, close) =~= name);
    assert(line.skip(close + 1) =~= rest);
    assert(head =~= Seq::<char>::empty() + number + seq![' ']);
    assert(text::is_white(' '));
    text::trimming_drops_the_whitespace(Seq::empty(), number, seq![' ']);
}

/// A field is the first word behind its name, in the last line with that name.
pub proof fn fields_stand_behind_their_names(lines: Seq<Seq<char>>, prefix: Seq<char>, rest: Seq<char>, other: Seq<char>, max: int)
    requires
        text::words(rest).len() > 0,
        !text::begins(other, prefix),
    ensures
        field_of(lines.push(prefix + rest), prefix, max) == text::unsigned_literal(
            text::words(rest)[0],
            10,
            max,
        ),
        field_of(lines.push(other), prefix, max) == field_of(lines, prefix, max),
        field_of(Seq::empty(), prefix, max) is None,
{
    let line = prefix + rest;
    assert(line.take(prefix.len() as int) =~= prefix);
    assert(line.skip(prefix.len() as int) =~= rest);
    assert(lines.push(line).last() == line);
    assert(lines.push(other).drop_last() =~= lines);
}

/// A user is known by the first part of a line of the user table and has the
/// number of the third; short lines and lines without a number name nobody.
pub proof fn users_have_numbers(line: Seq<char>)
    ensures
        ({
            let parts = text::pieces(line, ':');
            &&& parts.len() < 3 ==> user_in(line) is None
            &&& parts.len() >= 3 ==> (match text::unsigned_literal(parts[2], 10, 0xffff_ffff) {
                Some(uid) => user_in(line) == Some((uid as u32, parts[0])),
                None => user_in(line) is None,
            })
        }),
{
}

/// The users stand in the order of the lines.
pub proof fn users_keep_their_order(lines: Seq<Seq<char>>, line: Seq<char>)
    ensures
        users_in(Seq::empty()).len() == 0,
        user_in(line) matches Some(user) ==> users_in(seq![line] + lines) == seq![user] + users_in(
            lines,
        ),
        user_in(line) is None ==> users_in(seq![line] + lines) == users_in(lines),
{
    assert((seq![line] + lines).drop_first() =~= lines);
}

/// An owner is shown by the last name that the table has for the number, else by
/// the number, and without a number as a dash.
pub proof fn owners_are_named(users: Seq<(u32, Seq<char>)>, uid: u32, other: u32, name: Seq<char>)
    ensures
        owner(users.push((uid, name)), Some(uid)) == name,
        other != uid ==> owner(users.push((uid, name)), Some(other)) == owner(users, Some(other)),
        owner(Seq::empty(), Some(uid)) == text::decimal(uid as nat),
        owner(users, None) == "-"@,
{
    assert(users.push((uid, name)).drop_last() =~= users);
}

/// A command line is the arguments with spaces in between; a process without any
/// is shown by its name in brackets. What is longer than 160 characters is cut.
pub proof fn commands_are_shown(bytes: Seq<u8>, name: Seq<char>)
    ensures
        ({
            let words = text::joined(arguments(bytes), " "@);
            let shown = command_of(bytes, name);
            &&& 0 < words.len() <= 160 ==> shown == words
            &&& words.len() > 160 ==> shown.len() == 161 && shown.take(160) == words.take(160)
                && shown.last() == '…'
            &&& words.len() == 0 && name.len() <= 158 ==> shown == "["@ + name + "]"@
        }),
{
    reveal_strlit("[");
    reveal_strlit("]");
    let words = text::joined(arguments(bytes), " "@);
    if words.len() > 160 {
        assert(command_of(bytes, name).take(160) =~= words.take(160));
    }
}

/// Arguments end at a zero byte, and empty ones are left out.
pub proof fn arguments_end_at_zero_bytes(part: Seq<u8>, rest: Seq<u8>)
    requires
        !part.contains(0),
    ensures
        part.len() > 0 ==> arguments(part) == seq![text::lossy(part)],
        part.len() > 0 ==> arguments(part.push(0) + rest) == seq![text::lossy(part)] + arguments(
            rest,
        ),
        part.len() == 0 ==> arguments(part.push(0) + rest) == arguments(rest),
        arguments(Seq::empty()).len() == 0,
{
    let all = part.push(0) + rest;
    assert(all.take(part.len() as int) =~= part);
    assert(all.skip((part.len() + 1) as int) =~= rest);
    assert(part.take(part.len() as int) =~= part);
    lemma_part(part, all);
    lemma_part(part, part);
    if part.len() > 0 {
        assert(seq![text::lossy(part)] + Seq::empty() =~= seq![text::lossy(part)]);
    }
}

proof fn lemma_part(part: Seq<u8>, all: Seq<u8>)
    requires
        !part.contains(0),
        part.len() <= all.len(),
        all.take(part.len() as int) == part,
        all.len() == part.len() || all[part.len() as int] == 0,
    ensures
        part_len(all) == part.len(),
    decreases part.len(),
{
    if part.len() > 0 {
        assert(part.contains(part[0]));
        assert(all[0] == all.take(part.len() as int)[0]);
        let p = part.drop_first();
        let a = all.drop_first();
        assert forall|i: int| 0 <= i < p.len() implies p[i] != 0 by {
            assert(part.contains(part[i + 1]));
        }
        assert(a.take(p.len() as int) =~= p);
        lemma_part(p, a);
    }
}

/// The counters of all cores are the words behind `cpu`.
pub proof fn counters_stand_behind_cpu(stat: Seq<char>)
    ensures
        cpu_words(stat) matches Some(list) ==> text::words(text::line_list(stat)[0]) == seq![
            "cpu"@,
        ] + list,
        cpu_words(stat) is None <==> text::line_list(stat).len() == 0 || text::words(
            text::line_list(stat)[0],
        ).len() == 0 || text::words(text::line_list(stat)[0])[0] != "cpu"@,
{
    if cpu_words(stat) is Some {
        let words = text::words(text::line_list(stat)[0]);
        assert(words =~= seq!["cpu"@] + words.drop_first());
    }
}

} // verus!
