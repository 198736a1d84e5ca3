//! Who is connected to a local port, read from `/proc/net/tcp` and
//! `/proc/net/tcp6`.
use crate::order;
use crate::text;
use vstd::prelude::*;

verus! {

// ---------------------------------------------------------------- addresses

/// A hexadecimal word of 32 bits.
pub open spec fn hex_word(s: Seq<char>) -> Option<int> {
    text::unsigned_literal(s, 16, u32::MAX as int)
}

/// The four bytes of a little-endian word in dotted form.
pub open spec fn dotted_of(v: int) -> Seq<char> {
    text::decimal((v % 256) as nat) + "."@ + text::decimal(((v / 256) % 256) as nat) + "."@
        + text::decimal(((v / 65536) % 256) as nat) + "."@ + text::decimal(
        ((v / 16777216) % 256) as nat,
    )
}

/// The two 16-bit groups of a little-endian word.
pub open spec fn groups_of(v: int) -> Seq<Seq<char>> {
    seq![
        text::digits(((v % 256) * 256 + (v / 256) % 256) as nat, 16),
        text::digits((((v / 65536) % 256) * 256 + (v / 16777216) % 256) as nat, 16),
    ]
}

/// An IPv4 address as the kernel writes it: one little-endian word in
/// hexadecimal.
pub open spec fn ipv4_of(s: Seq<char>) -> Option<Seq<char>> {
    match hex_word(s) {
        Some(v) => Some(dotted_of(v)),
        None => None,
    }
}

/// An IPv6 address as the kernel writes it: four little-endian words of eight
/// hexadecimal digits each.
pub open spec fn ipv6_of(s: Seq<char>) -> Option<Seq<char>> {
    if s.len() != 32 {
        None
    } else {
        match (
            hex_word(s.subrange(0, 8)),
            hex_word(s.subrange(8, 16)),
            hex_word(s.subrange(16, 24)),
            hex_word(s.subrange(24, 32)),
        ) {
            (Some(a), Some(b), Some(c), Some(d)) => Some(
                text::joined(groups_of(a) + groups_of(b) + groups_of(c) + groups_of(d), ":"@),
            ),
            _ => None,
        }
    }
}

pub open spec fn address_of(s: Seq<char>, is_ipv6: bool) -> Option<Seq<char>> {
    if is_ipv6 {
        ipv6_of(s)
    } else {
        ipv4_of(s)
    }
}

/// An optional text as characters.
pub open spec fn chars_in(s: Option<String>) -> Option<Seq<char>> {
    match s {
        Some(s) => Some(s@),
        None => None,
    }
}

fn dotted(v: u32) -> (r: String)
    ensures
        r@ == dotted_of(v as int),
{
    let a = text::from_u64((v % 256) as u64);
    let b = text::from_u64(((v / 256) % 256) as u64);
    let c = text::from_u64(((v / 65536) % 256) as u64);
    let d = text::from_u64(((v / 16777216) % 256) as u64);
    let mut out = text::cat5(a.as_str(), ".", b.as_str(), ".", c.as_str());
    out.append(".");
    out.append(d.as_str());
    out
}

fn push_groups(out: &mut Vec<String>, v: u32)
    ensures
        text::views(final(out)@) == text::views(old(out)@) + groups_of(v as int),
{
    out.push(text::hex_from_u64(((v % 256) * 256 + (v / 256) % 256) as u64));
    out.push(text::hex_from_u64((((v / 65536) % 256) * 256 + (v / 16777216) % 256) as u64));
    assert(text::views(out@) =~= text::views(old(out)@) + groups_of(v as int));
}

/// `/proc/net/tcp*` stores addresses as little-endian hex words.
pub fn decode_address(address: &str, is_ipv6: bool) -> (r: Option<String>)
    ensures
        chars_in(r) == address_of(address@, is_ipv6),
{
    if !is_ipv6 {
        return match text::parse_hex_u32(address) {
            Some(v) => Some(dotted(v)),
            None => None,
        };
    }
    let chars = text::chars_of(address);
    if chars.len() != 32 {
        return None;
    }
    let a = text::string_of(&chars, 0, 8);
    let b = text::string_of(&chars, 8, 16);
    let c = text::string_of(&chars, 16, 24);
    let d = text::string_of(&chars, 24, 32);
    match (
        text::parse_hex_u32(a.as_str()),
        text::parse_hex_u32(b.as_str()),
        text::parse_hex_u32(c.as_str()),
        text::parse_hex_u32(d.as_str()),
    ) {
        (Some(a), Some(b), Some(c), Some(d)) => {
            let mut groups: Vec<String> = Vec::new();
            assert(text::views(groups@) =~= Seq::empty());
            push_groups(&mut groups, a);
            push_groups(&mut groups, b);
            push_groups(&mut groups, c);
            push_groups(&mut groups, d);
            assert(text::views(groups@) =~= groups_of(a as int) + groups_of(b as int) + groups_of(
                c as int,
            ) + groups_of(d as int));
            Some(text::join(&groups, ":"))
        },
        _ => None,
    }
}

// ---------------------------------------------------------------- rows

/// Whether an address is this machine or no address at all.
pub open spec fn is_own(address: Seq<char>) -> bool {
    ||| address == "0.0.0.0"@
    ||| address == "::"@
    ||| text::begins(address, "127."@)
    ||| address == "::1"@
    ||| address == "0:0:0:0:0:0:0:1"@
}

/// Whether the words of an IPv6 address, as the kernel writes them, hold an IPv4
/// loopback address: `::ffff:127.0.0.0/104`.
pub open spec fn maps_loopback(s: Seq<char>) -> bool {
    &&& s.len() == 32
    &&& hex_word(s.subrange(0, 8)) == Some(0int)
    &&& hex_word(s.subrange(8, 16)) == Some(0int)
    &&& hex_word(s.subrange(16, 24)) == Some(0xFFFF0000int)
    &&& hex_word(s.subrange(24, 32)) matches Some(v) && v % 256 == 0x7F
}

/// The remote address of a row: an established connection to the port from
/// another machine.
pub open spec fn remote_in(line: Seq<char>, port: u16, is_ipv6: bool) -> Option<Seq<char>> {
    let fields = text::words(line);
    if fields.len() < 4 || fields[3] != "01"@ {
        None
    } else {
        match (text::cut_last(fields[1], ':'), text::cut_last(fields[2], ':')) {
            (Some((_, local_port)), Some((remote, _))) => {
                if text::unsigned_literal(local_port, 16, u16::MAX as int) != Some(port as int) {
                    None
                } else if is_ipv6 && (maps_loopback(remote) || remote
                    == "00000000000000000000000000000000"@) {
                    None
                } else {
                    match address_of(remote, is_ipv6) {
                        Some(address) => if is_own(address) {
                            None
                        } else {
                            Some(address)
                        },
                        None => None,
                    }
                }
            },
            _ => None,
        }
    }
}

/// The remote addresses of a list of rows, in order.
pub open spec fn remotes_in(lines: Seq<Seq<char>>, port: u16, is_ipv6: bool) -> Seq<Seq<char>>
    decreases lines.len(),
{
    if lines.len() == 0 {
        Seq::empty()
    } else {
        let rest = remotes_in(lines.drop_last(), port, is_ipv6);
        match remote_in(lines.last(), port, is_ipv6) {
            Some(address) => rest.push(address),
            None => rest,
        }
    }
}

/// The remote addresses of a table; its first line is a heading.
pub open spec fn remotes_of(table: Seq<char>, port: u16, is_ipv6: bool) -> Seq<Seq<char>> {
    let lines = text::line_list(table);
    if lines.len() == 0 {
        Seq::empty()
    } else {
        remotes_in(lines.drop_first(), port, is_ipv6)
    }
}

fn own(address: &str) -> (r: bool)
    ensures
        r == is_own(address@),
{
    text::same(address, "0.0.0.0") || text::same(address, "::") || text::starts_with(
        address,
        "127.",
    ) || text::same(address, "::1") || text::same(address, "0:0:0:0:0:0:0:1")
}

fn holds_loopback(address: &str) -> (r: bool)
    ensures
        r == maps_loopback(address@),
{
    let chars = text::chars_of(address);
    if chars.len() != 32 {
        return false;
    }
    let a = text::string_of(&chars, 0, 8);
    let b = text::string_of(&chars, 8, 16);
    let c = text::string_of(&chars, 16, 24);
    let d = text::string_of(&chars, 24, 32);
    match (
        text::parse_hex_u32(a.as_str()),
        text::parse_hex_u32(b.as_str()),
        text::parse_hex_u32(c.as_str()),
        text::parse_hex_u32(d.as_str()),
    ) {
        (Some(a), Some(b), Some(c), Some(d)) => a == 0 && b == 0 && c == 0xFFFF0000 && d % 256
            == 0x7F,
        _ => false,
    }
}

fn remote_of(line: &str, port: u16, is_ipv6: bool) -> (r: Option<String>)
    ensures
        chars_in(r) == remote_in(line@, port, is_ipv6),
{
    let fields = text::split_words(line);
    assert(text::words(line@).len() == fields@.len());
    assert(forall|i: int| 0 <= i < fields@.len() ==> text::words(line@)[i] == fields@[i]@);
    if fields.len() < 4 || !text::same(fields[3].as_str(), "01") {
        return None;
    }
    let local_port = match text::rsplit_once(fields[1].as_str(), ':') {
        Some((_, p)) => p,
        None => return None,
    };
    let remote = match text::rsplit_once(fields[2].as_str(), ':') {
        Some((a, _)) => a,
        None => return None,
    };
    match text::parse_hex_u16(local_port.as_str()) {
        Some(p) => {
            if p != port {
                return None;
            }
        },
        None => return None,
    }
    if is_ipv6 && (holds_loopback(remote.as_str()) || text::same(
        remote.as_str(),
        "00000000000000000000000000000000",
    )) {
        return None;
    }
    match decode_address(remote.as_str(), is_ipv6) {
        Some(address) => {
            if own(address.as_str()) {
                None
            } else {
                Some(address)
            }
        },
        None => None,
    }
}

fn push_remotes(out: &mut Vec<String>, table: &str, port: u16, is_ipv6: bool)
    ensures
        text::views(final(out)@) == text::views(old(out)@) + remotes_of(table@, port, is_ipv6),
{
    let lines = text::lines(table);
    let ghost all = text::line_list(table@);
    let ghost rows = if all.len() == 0 {
        Seq::empty()
    } else {
        all.drop_first()
    };
    let ghost start = text::views(old(out)@);
    assert(all.len() == lines@.len());
    if lines.len() == 0 {
        assert(text::views(out@) =~= start + remotes_of(table@, port, is_ipv6));
        return;
    }
    let mut i: usize = 1;
    assert(rows.take(0) =~= Seq::empty());
    assert(text::views(out@) =~= start + remotes_in(rows.take(0), port, is_ipv6));
    while i < lines.len()
        invariant
            1 <= i <= lines@.len(),
            all == text::views(lines@),
            rows == all.drop_first(),
            text::views(out@) == start + remotes_in(rows.take(i - 1), port, is_ipv6),
        decreases lines@.len() - i,
    {
        let ghost before = out@;
        assert(rows.take(i as int).drop_last() =~= rows.take(i - 1));
        assert(rows.take(i as int).last() == lines@[i as int]@);
        if let Some(address) = remote_of(lines[i].as_str(), port, is_ipv6) {
            out.push(address);
            assert(text::views(out@) =~= text::views(before).push(address@));
            assert(text::views(out@) =~= start + remotes_in(rows.take(i as int), port, is_ipv6));
        }
        i += 1;
    }
    assert(rows.take(rows.len() as int) =~= rows);
}

// ---------------------------------------------------------------- counting

/// How often a text occurs in a list.
pub open spec fn occurrences(list: Seq<Seq<char>>, s: Seq<char>) -> nat
    decreases list.len(),
{
    if list.len() == 0 {
        0
    } else {
        occurrences(list.drop_last(), s) + if list.last() == s {
            1nat
        } else {
            0nat
        }
    }
}

/// Rows as characters.
pub open spec fn rows_of(list: Seq<(String, u32)>) -> Seq<(Seq<char>, u32)> {
    list.map_values(|p: (String, u32)| (p.0@, p.1))
}

/// Whether rows count the texts of a list: each text has one row, with its
/// number, and every row stands for a text.
pub open spec fn counts(rows: Seq<(Seq<char>, u32)>, list: Seq<Seq<char>>) -> bool {
    &&& forall|i: int|
        0 <= i < rows.len() ==> (#[trigger] rows[i]).1 == occurrences(list, rows[i].0) && rows[i].1
            > 0
    &&& forall|i: int, j: int|
        0 <= i < j < rows.len() ==> (#[trigger] rows[i]).0 != (#[trigger] rows[j]).0
    &&& forall|s: Seq<char>| #[trigger]
        occurrences(list, s) > 0 ==> exists|i: int| 0 <= i < rows.len() && (#[trigger] rows[i]).0
            == s
}

/// Whether rows stand in order: more connections first, then by address.
pub open spec fn ranked(rows: Seq<(Seq<char>, u32)>) -> bool {
    forall|i: int, j: int|
        0 <= i < j < rows.len() ==> {
            ||| (#[trigger] rows[i]).1 > (#[trigger] rows[j]).1
            ||| rows[i].1 == rows[j].1 && text::before(rows[i].0, rows[j].0)
        }
}

proof fn lemma_occurrences_bound(list: Seq<Seq<char>>, s: Seq<char>)
    ensures
        occurrences(list, s) <= list.len(),
    decreases list.len(),
{
    if list.len() > 0 {
        lemma_occurrences_bound(list.drop_last(), s);
    }
}

fn count_one(rows: &mut Vec<(String, u32)>, s: &str, Ghost(list): Ghost<Seq<Seq<char>>>)
    requires
        counts(rows_of(old(rows)@), list),
        list.len() < u32::MAX,
    ensures
        counts(rows_of(final(rows)@), list.push(s@)),
{
    let ghost all = rows_of(rows@);
    let ghost longer = list.push(s@);
    assert(longer.drop_last() =~= list);
    proof {
        lemma_occurrences_bound(list, s@);
    }
    let mut i: usize = 0;
    while i < rows.len()
        invariant
            i <= rows@.len(),
            all == rows_of(rows@),
            rows@ == old(rows)@,
            counts(all, list),
            list.len() < u32::MAX,
            longer == list.push(s@),
            longer.drop_last() == list,
            occurrences(list, s@) <= list.len(),
            forall|k: int| 0 <= k < i ==> (#[trigger] all[k]).0 != s@,
        decreases rows@.len() - i,
    {
        if text::same(rows[i].0.as_str(), s) {
            assert(all[i as int].0 == s@);
            let count: u32 = rows[i].1;
            assert(all[i as int].1 == count);
            rows.set(i, (text::copy(s), count + 1));
            let ghost after = rows_of(rows@);
            assert(after =~= all.update(i as int, (s@, (count + 1) as u32)));
            proof {
                assert forall|k: int| 0 <= k < after.len() implies (#[trigger] after[k]).1
                    == occurrences(longer, after[k].0) && after[k].1 > 0 by {
                    assert(all[k].1 == occurrences(list, all[k].0));
                    if k != i {
                        assert(all[k].0 != all[i as int].0);
                    }
                }
                assert forall|t: Seq<char>| #[trigger] occurrences(longer, t) > 0 implies exists|
                    k: int,
                |
                    0 <= k < after.len() && (#[trigger] after[k]).0 == t by {
                    if t == s@ {
                        assert(after[i as int].0 == t);
                    } else {
                        assert(occurrences(list, t) > 0);
                        let k = choose|k: int| 0 <= k < all.len() && (#[trigger] all[k]).0 == t;
                        assert(after[k].0 == t);
                    }
                }
                assert forall|a: int, b: int| 0 <= a < b < after.len() implies (
                #[trigger] after[a]).0 != (#[trigger] after[b]).0 by {
                    assert(all[a].0 != all[b].0);
                    assert(after[a].0 == all[a].0 && after[b].0 == all[b].0);
                }
            }
            return;
        }
        i += 1;
    }
    proof {
        if occurrences(list, s@) > 0 {
            let k = choose|k: int| 0 <= k < all.len() && (#[trigger] all[k]).0 == s@;
            assert(false);
        }
    }
    rows.push((text::copy(s), 1));
    let ghost after = rows_of(rows@);
    assert(after =~= all.push((s@, 1u32)));
    proof {
        assert forall|k: int| 0 <= k < after.len() implies (#[trigger] after[k]).1 == occurrences(
            longer,
            after[k].0,
        ) && after[k].1 > 0 by {
            if k < all.len() {
                assert(all[k].1 == occurrences(list, all[k].0));
                assert(all[k].0 != s@);
            }
        }
        assert forall|t: Seq<char>| #[trigger] occurrences(longer, t) > 0 implies exists|k: int|
            0 <= k < after.len() && (#[trigger] after[k]).0 == t by {
            if t == s@ {
                assert(after[all.len() as int].0 == t);
            } else {
                assert(occurrences(list, t) > 0);
                let k = choose|k: int| 0 <= k < all.len() && (#[trigger] all[k]).0 == t;
                assert(after[k].0 == t);
            }
        }
        assert forall|a: int, b: int| 0 <= a < b < after.len() implies (#[trigger] after[a]).0 != (
        #[trigger] after[b]).0 by {
            if b < all.len() {
                assert(all[a].0 != all[b].0);
            } else {
                assert(all[a].0 != s@);
            }
        }
    }
}

fn tally(list: &Vec<String>) -> (r: Vec<(String, u32)>)
    requires
        list@.len() <= u32::MAX,
    ensures
        counts(rows_of(r@), text::views(list@)),
        ranked(rows_of(r@)),
{
    let ghost all = text::views(list@);
    let n: usize = list.len();
    let mut rows: Vec<(String, u32)> = Vec::new();
    let mut i: usize = 0;
    assert(all.take(0) =~= Seq::empty());
    assert(rows_of(rows@) =~= Seq::empty());
    while i < n
        invariant
            i <= n == list@.len(),
            n <= u32::MAX,
            all == text::views(list@),
            counts(rows_of(rows@), all.take(i as int)),
        decreases n - i,
    {
        assert(all.take(i + 1) =~= all.take(i as int).push(list@[i as int]@));
        count_one(&mut rows, list[i].as_str(), Ghost(all.take(i as int)));
        i += 1;
    }
    assert(all.take(n as int) =~= all);
    sort_rows(&rows, Ghost(all))
}

spec fn row_places(rows: Seq<(Seq<char>, u32)>) -> Seq<order::Place> {
    rows.map_values(
        |p: (Seq<char>, u32)| (order::Place { rank: -(p.1 as int), name: p.0, number: 0 }),
    )
}

fn sort_rows(rows: &Vec<(String, u32)>, Ghost(list): Ghost<Seq<Seq<char>>>) -> (r: Vec<
    (String, u32),
>)
    requires
        counts(rows_of(rows@), list),
    ensures
        counts(rows_of(r@), list),
        ranked(rows_of(r@)),
{
    let ghost all = rows_of(rows@);
    let ghost places = row_places(all);
    let mut keys: Vec<order::Key> = Vec::new();
    let mut i: usize = 0;
    while i < rows.len()
        invariant
            i <= rows@.len(),
            all == rows_of(rows@),
            places == row_places(all),
            order::places(keys@) == places.take(i as int),
        decreases rows@.len() - i,
    {
        let ghost before = keys@;
        keys.push(
            order::Key {
                rank: 0 - (rows[i].1 as i128),
                name: text::copy(rows[i].0.as_str()),
                number: 0,
            },
        );
        assert(all[i as int] == (rows@[i as int].0@, rows@[i as int].1));
        assert(order::places(keys@) =~= order::places(before).push(places[i as int]));
        assert(order::places(keys@) =~= places.take(i + 1));
        i += 1;
    }
    assert(order::places(keys@) =~= places);
    assert(keys@.len() == order::places(keys@).len());
    let order = order::arrange(&keys);
    let mut out: Vec<(String, u32)> = Vec::new();
    let mut k: usize = 0;
    while k < order.len()
        invariant
            k <= order@.len(),
            order@.len() == rows@.len(),
            all == rows_of(rows@),
            forall|j: int| 0 <= j < order@.len() ==> order@[j] < rows@.len(),
            out@.len() == k,
            forall|j: int|
                0 <= j < k ==> (#[trigger] out@[j]).0@ == all[order@[j] as int].0 && out@[j].1
                    == all[order@[j] as int].1,
        decreases order@.len() - k,
    {
        out.push((text::copy(rows[order[k]].0.as_str()), rows[order[k]].1));
        k += 1;
    }
    proof {
        order::arrangement_sorts(places);
        let o = order::arrangement(places);
        let after = rows_of(out@);
        assert forall|j: int| 0 <= j < after.len() implies (#[trigger] after[j]) == all[o[j]] by {
            assert(o[j] == order::indices(order@)[j]);
            assert(out@[j].0@ == all[order@[j] as int].0);
        }
        assert forall|j: int| 0 <= j < after.len() implies (#[trigger] after[j]).1 == occurrences(
            list,
            after[j].0,
        ) && after[j].1 > 0 by {
            assert(after[j] == all[o[j]]);
        }
        assert forall|a: int, b: int| 0 <= a < b < after.len() implies (#[trigger] after[a]).0 != (
        #[trigger] after[b]).0 by {
            assert(after[a] == all[o[a]] && after[b] == all[o[b]]);
            assert(o[a] != o[b]);
            if o[a] < o[b] {
                assert(all[o[a]].0 != all[o[b]].0);
            } else {
                assert(all[o[b]].0 != all[o[a]].0);
            }
        }
        assert forall|s: Seq<char>| #[trigger] occurrences(list, s) > 0 implies exists|j: int|
            0 <= j < after.len() && (#[trigger] after[j]).0 == s by {
            let m = choose|m: int| 0 <= m < all.len() && (#[trigger] all[m]).0 == s;
            assert(o.contains(m));
            let j = choose|j: int| 0 <= j < o.len() && o[j] == m;
            assert(after[j].0 == s);
        }
        assert forall|a: int, b: int| 0 <= a < b < after.len() implies {
            ||| (#[trigger] after[a]).1 > (#[trigger] after[b]).1
            ||| after[a].1 == after[b].1 && text::before(after[a].0, after[b].0)
        } by {
            assert(after[a] == all[o[a]] && after[b] == all[o[b]]);
            assert(places[o[a]] == order::Place {
                rank: -(after[a].1 as int),
                name: after[a].0,
                number: 0,
            });
            assert(places[o[b]] == order::Place {
                rank: -(after[b].1 as int),
                name: after[b].0,
                number: 0,
            });
            text::lemma_before_total(after[a].0, after[b].0);
            assert(after[a].0 != after[b].0);
        }
    }
    out
}

/// Established connections to a port in one table, grouped by remote address.
/// Loopback and unspecified addresses are ignored.
pub fn parse_tcp_table(table: &str, port: u16, is_ipv6: bool) -> (r: Vec<(String, u32)>)
    requires
        table@.len() <= u32::MAX,
    ensures
        counts(rows_of(r@), remotes_of(table@, port, is_ipv6)),
        ranked(rows_of(r@)),
{
    let mut list: Vec<String> = Vec::new();
    assert(text::views(list@) =~= Seq::empty());
    push_remotes(&mut list, table, port, is_ipv6);
    assert(text::views(list@) =~= remotes_of(table@, port, is_ipv6));
    proof {
        lemma_remotes_len(table@, port, is_ipv6);
        assert(list@.len() == text::views(list@).len());
    }
    tally(&list)
}

/// Established connections to a port in both tables, grouped by remote
/// address. The tables are empty where they could not be read.
pub fn client_connections(tcp: &str, tcp6: &str, port: u16) -> (r: Vec<(String, u32)>)
    requires
        tcp@.len() + tcp6@.len() <= u32::MAX,
    ensures
        counts(
            rows_of(r@),
            remotes_of(tcp@, port, false) + remotes_of(tcp6@, port, true),
        ),
        ranked(rows_of(r@)),
{
    let mut list: Vec<String> = Vec::new();
    assert(text::views(list@) =~= Seq::empty());
    push_remotes(&mut list, tcp, port, false);
    push_remotes(&mut list, tcp6, port, true);
    assert(text::views(list@) =~= remotes_of(tcp@, port, false) + remotes_of(tcp6@, port, true));
    proof {
        lemma_remotes_len(tcp@, port, false);
        lemma_remotes_len(tcp6@, port, true);
        assert(list@.len() == text::views(list@).len());
    }
    tally(&list)
}

proof fn lemma_remotes_len(table: Seq<char>, port: u16, is_ipv6: bool)
    ensures
        remotes_of(table, port, is_ipv6).len() <= table.len(),
{
    lemma_lines_len(table);
    if text::line_list(table).len() > 0 {
        lemma_remotes_in_len(text::line_list(table).drop_first(), port, is_ipv6);
    }
}

proof fn lemma_remotes_in_len(lines: Seq<Seq<char>>, port: u16, is_ipv6: bool)
    ensures
        remotes_in(lines, port, is_ipv6).len() <= lines.len(),
    decreases lines.len(),
{
    if lines.len() > 0 {
        lemma_remotes_in_len(lines.drop_last(), port, is_ipv6);
    }
}

proof fn lemma_lines_len(s: Seq<char>)
    ensures
        text::line_list(s).len() <= s.len(),
    decreases s.len(),
{
    text::lemma_first_at(s, '\n');
    let k = text::first_at(s, '\n') as int;
    if s.len() > 0 && k < s.len() {
        lemma_lines_len(s.skip(k + 1));
    }
}

/// Counting settles the rows: two lists that count the same texts hold the same
/// rows.
pub proof fn counting_is_settled(
    a: Seq<(Seq<char>, u32)>,
    b: Seq<(Seq<char>, u32)>,
    list: Seq<Seq<char>>,
)
    requires
        counts(a, list),
        counts(b, list),
    ensures
        forall|row: (Seq<char>, u32)| a.contains(row) <==> b.contains(row),
{
    assert forall|row: (Seq<char>, u32)| a.contains(row) <==> b.contains(row) by {
        if a.contains(row) {
            let i = choose|i: int| 0 <= i < a.len() && a[i] == row;
            assert(occurrences(list, row.0) > 0);
            let j = choose|j: int| 0 <= j < b.len() && (#[trigger] b[j]).0 == row.0;
            assert(b[j] == row);
        }
        if b.contains(row) {
            let i = choose|i: int| 0 <= i < b.len() && b[i] == row;
            assert(occurrences(list, row.0) > 0);
            let j = choose|j: int| 0 <= j < a.len() && (#[trigger] a[j]).0 == row.0;
            assert(a[j] == row);
        }
    }
}

proof fn lemma_word_bytes(v: int, a: int, b: int, c: int, d: int)
    requires
        0 <= a < 256,
        0 <= b < 256,
        0 <= c < 256,
        0 <= d < 256,
        v == a + 256 * b + 65536 * c + 16777216 * d,
    ensures
        v % 256 == a,
        (v / 256) % 256 == b,
        (v / 65536) % 256 == c,
        (v / 16777216) % 256 == d,
{
    let x = b + 256 * c + 65536 * d;
    let y = c + 256 * d;
    assert(v == a + 256 * x);
    assert(v / 256 == x);
    assert(v == (a + 256 * b) + 65536 * y);
    assert(v / 65536 == y);
    assert(v == (a + 256 * b + 65536 * c) + 16777216 * d);
    assert(v / 16777216 == d);
    assert(x == b + 256 * y);
}

/// An IPv4 address is one word, its first byte last: the bytes come out in the
/// order in which an address is written.
pub proof fn words_become_dotted_addresses(s: Seq<char>, a: int, b: int, c: int, d: int)
    requires
        0 <= a < 256,
        0 <= b < 256,
        0 <= c < 256,
        0 <= d < 256,
        text::unsigned_literal(s, 16, 0xffff_ffff) == Some(a + 256 * b + 65536 * c + 16777216 * d),
    ensures
        address_of(s, false) == Some(
            text::decimal(a as nat) + "."@ + text::decimal(b as nat) + "."@ + text::decimal(
                c as nat,
            ) + "."@ + text::decimal(d as nat),
        ),
{
    lemma_word_bytes(a + 256 * b + 65536 * c + 16777216 * d, a, b, c, d);
}

/// A word of an IPv6 address has its first byte last: it gives two groups in the
/// order in which an address is written.
pub proof fn words_become_groups(a: int, b: int, c: int, d: int)
    requires
        0 <= a < 256,
        0 <= b < 256,
        0 <= c < 256,
        0 <= d < 256,
    ensures
        groups_of(a + 256 * b + 65536 * c + 16777216 * d) == seq![
            text::digits((a * 256 + b) as nat, 16),
            text::digits((c * 256 + d) as nat, 16),
        ],
{
    lemma_word_bytes(a + 256 * b + 65536 * c + 16777216 * d, a, b, c, d);
}

/// An IPv6 address is four words of eight digits: their groups in order, with
/// colons in between.
pub proof fn four_words_become_an_address(s: Seq<char>, a: int, b: int, c: int, d: int)
    requires
        s.len() == 32,
        text::unsigned_literal(s.subrange(0, 8), 16, 0xffff_ffff) == Some(a),
        text::unsigned_literal(s.subrange(8, 16), 16, 0xffff_ffff) == Some(b),
        text::unsigned_literal(s.subrange(16, 24), 16, 0xffff_ffff) == Some(c),
        text::unsigned_literal(s.subrange(24, 32), 16, 0xffff_ffff) == Some(d),
    ensures
        address_of(s, true) == Some(
            text::joined(groups_of(a) + groups_of(b) + groups_of(c) + groups_of(d), ":"@),
        ),
{
}

/// A row counts where the connection is established and its own port is the one
/// asked for; then it gives the address of the other side, unless that is this
/// machine.
pub proof fn established_rows_count(
    line: Seq<char>,
    port: u16,
    own: Seq<char>,
    own_port: Seq<char>,
    other: Seq<char>,
    other_port: Seq<char>,
)
    requires
        text::words(line).len() >= 4,
        text::words(line)[1] == own.push(':') + own_port,
        text::words(line)[2] == other.push(':') + other_port,
        !own_port.contains(':'),
        !other_port.contains(':'),
    ensures
        ({
            let row = remote_in(line, port, false);
            &&& row is Some ==> text::words(line)[3] == "01"@ && text::unsigned_literal(
                own_port,
                16,
                0xffff,
            ) == Some(port as int) && row == address_of(other, false)
            &&& text::words(line)[3] == "01"@ && text::unsigned_literal(own_port, 16, 0xffff)
                == Some(port as int) ==> (address_of(other, false) matches Some(address) ==> (row
                is None <==> address == "0.0.0.0"@ || text::begins(address, "127."@) || address
                == "::"@ || address == "::1"@ || address == "0:0:0:0:0:0:0:1"@))
        }),
        remote_in(line, port, true) is Some ==> text::words(line)[3] == "01"@
            && text::unsigned_literal(own_port, 16, 0xffff) == Some(port as int)
            && remote_in(line, port, true) == address_of(other, true),
{
    text::cuts_at_the_last_mark(own, own_port, ':');
    text::cuts_at_the_last_mark(other, other_port, ':');
}

/// A table is its rows without the heading.
pub proof fn headings_do_not_count(heading: Seq<char>, rows: Seq<char>, port: u16, is_ipv6: bool)
    requires
        !heading.contains('\n'),
        heading.len() == 0 || heading.last() != '\r',
    ensures
        remotes_of(heading.push('\n') + rows, port, is_ipv6) == remotes_in(
            text::line_list(rows),
            port,
            is_ipv6,
        ),
{
    text::lines_end_at_line_feeds(heading, rows);
    let lines = text::line_list(heading.push('\n') + rows);
    assert(lines.drop_first() =~= text::line_list(rows));
}

/// Every row that counts adds its address, in order.
pub proof fn rows_add_addresses(lines: Seq<Seq<char>>, line: Seq<char>, port: u16, is_ipv6: bool)
    ensures
        remotes_in(Seq::empty(), port, is_ipv6).len() == 0,
        match remote_in(line, port, is_ipv6) {
            Some(address) => remotes_in(lines.push(line), port, is_ipv6) == remotes_in(
                lines,
                port,
                is_ipv6,
            ).push(address),
            None => remotes_in(lines.push(line), port, is_ipv6) == remotes_in(
                lines,
                port,
                is_ipv6,
            ),
        },
{
    assert(lines.push(line).drop_last() =~= lines);
}

/// An address is counted as often as it occurs.
pub proof fn occurrences_add_up(list: Seq<Seq<char>>, item: Seq<char>, s: Seq<char>)
    ensures
        occurrences(Seq::empty(), s) == 0,
        occurrences(list.push(item), s) == occurrences(list, s) + if item == s {
            1nat
        } else {
            0nat
        },
        occurrences(list, s) == list.to_multiset().count(s),
    decreases list.len(),
{
    broadcast use vstd::seq_lib::group_to_multiset_ensures;

    assert(list.push(item).drop_last() =~= list);
    if list.len() > 0 {
        occurrences_add_up(list.drop_last(), item, s);
        assert(list.drop_last().push(list.last()) =~= list);
    } else {
        assert(list =~= Seq::<Seq<char>>::empty());
        assert(list.to_multiset() =~= vstd::multiset::Multiset::empty());
    }
}

/// A client on this machine is not listed, whether it came as IPv4 in IPv6 or not;
/// another IPv6 address is.
pub proof fn local_clients_are_not_listed(line: Seq<char>, port: u16, own: Seq<char>, own_port: Seq<char>, other: Seq<char>, other_port: Seq<char>, v: int)
    requires
        text::words(line).len() >= 4,
        text::words(line)[1] == own.push(':') + own_port,
        text::words(line)[2] == other.push(':') + other_port,
        text::words(line)[3] == "01"@,
        text::unsigned_literal(own_port, 16, 0xffff) == Some(port as int),
        !own_port.contains(':'),
        !other_port.contains(':'),
        other.len() == 32,
        text::unsigned_literal(other.subrange(0, 8), 16, 0xffff_ffff) == Some(0int),
        text::unsigned_literal(other.subrange(8, 16), 16, 0xffff_ffff) == Some(0int),
        text::unsigned_literal(other.subrange(16, 24), 16, 0xffff_ffff) == Some(0xFFFF_0000int),
        text::unsigned_literal(other.subrange(24, 32), 16, 0xffff_ffff) == Some(v),
    ensures
        v % 256 == 127 ==> remote_in(line, port, true) is None,
        v % 256 != 127 && !text::begins(address_of(other, true)->0, "127."@) && address_of(
            other,
            true,
        )->0 != "0.0.0.0"@ && address_of(other, true)->0 != "::"@ && address_of(other, true)->0
            != "::1"@ && address_of(other, true)->0 != "0:0:0:0:0:0:0:1"@ && other
            != "00000000000000000000000000000000"@ ==> remote_in(line, port, true) == address_of(
            other,
            true,
        ),
{
    text::cuts_at_the_last_mark(own, own_port, ':');
    text::cuts_at_the_last_mark(other, other_port, ':');
}

} // verus!
