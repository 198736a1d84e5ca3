//! Text primitives: trimming, splitting, searching and joining.
//!
//! Every function states its result over the characters of its arguments.
use vstd::prelude::*;

verus! {

// ---------------------------------------------------------------- conversion

/// `String::push` appends one character.
pub assume_specification[ String::push ](s: &mut String, c: char)
    ensures
        final(s)@ == old(s)@.push(c),
;

/// The characters of a list of strings.
pub open spec fn views(list: Seq<String>) -> Seq<Seq<char>> {
    list.map_values(|s: String| s@)
}

/// The characters of `text` in order.
pub fn chars_of(text: &str) -> (r: Vec<char>)
    ensures
        r@ == text@,
{
    let mut out: Vec<char> = Vec::new();
    for c in it: text.chars()
        invariant
            out@ == it.seq().take(it.index() as int),
            it.seq() == text@,
    {
        out.push(c);
    }
    out
}

/// The characters from `from` up to, not including, `to`.
pub fn string_of(chars: &Vec<char>, from: usize, to: usize) -> (r: String)
    requires
        from <= to <= chars@.len(),
    ensures
        r@ == chars@.subrange(from as int, to as int),
{
    let mut out = String::new();
    let mut i: usize = from;
    while i < to
        invariant
            from <= i <= to <= chars@.len(),
            out@ == chars@.subrange(from as int, i as int),
        decreases to - i,
    {
        out.push(chars[i]);
        i += 1;
    }
    out
}

/// An owned copy.
pub fn copy(text: &str) -> (r: String)
    ensures
        r@ == text@,
{
    String::from_str(text)
}

/// The UTF-8 encoding of a text.
pub fn bytes_of(text: &str) -> (r: Vec<u8>)
    ensures
        r@ == vstd::utf8::encode_utf8(text@),
{
    text.as_bytes_vec()
}

/// Whether both texts hold the same characters.
pub fn same(left: &str, right: &str) -> (r: bool)
    ensures
        r == (left@ == right@),
{
    let a = chars_of(left);
    let b = chars_of(right);
    if a.len() != b.len() {
        return false;
    }
    let mut i: usize = 0;
    while i < a.len()
        invariant
            i <= a@.len(),
            a@.len() == b@.len(),
            a@ == left@,
            b@ == right@,
            forall|j: int| 0 <= j < i ==> a@[j] == b@[j],
        decreases a@.len() - i,
    {
        if a[i] != b[i] {
            return false;
        }
        i += 1;
    }
    assert(a@ =~= b@);
    true
}

/// Copies of the strings from index `start` on.
pub fn copy_from(list: &Vec<String>, start: usize) -> (r: Vec<String>)
    requires
        start <= list@.len(),
    ensures
        views(r@) == views(list@).skip(start as int),
{
    let mut out: Vec<String> = Vec::new();
    let mut i: usize = start;
    while i < list.len()
        invariant
            start <= i <= list@.len(),
            views(out@) == views(list@).subrange(start as int, i as int),
        decreases list@.len() - i,
    {
        let ghost before = out@;
        out.push(copy(list[i].as_str()));
        assert(views(out@) =~= views(before).push(list@[i as int]@));
        i += 1;
    }
    assert(views(list@).skip(start as int) =~= views(list@).subrange(
        start as int,
        list@.len() as int,
    ));
    out
}

/// Copies of the strings of a list.
pub fn copy_list(list: &Vec<String>) -> (r: Vec<String>)
    ensures
        views(r@) == views(list@),
{
    let out = copy_from(list, 0);
    assert(views(list@).skip(0) =~= views(list@));
    out
}

/// The number of characters.
pub fn count(text: &str) -> (r: usize)
    ensures
        r == text@.len(),
{
    let chars = chars_of(text);
    chars.len()
}

/// Whether the text holds no character.
pub fn is_empty(text: &str) -> (r: bool)
    ensures
        r == (text@.len() == 0),
{
    text.unicode_len() == 0
}

/// `a` followed by `b`.
pub fn cat2(a: &str, b: &str) -> (r: String)
    ensures
        r@ == a@ + b@,
{
    let mut out = String::from_str(a);
    out.append(b);
    out
}

/// Three texts in a row.
pub fn cat3(a: &str, b: &str, c: &str) -> (r: String)
    ensures
        r@ == a@ + b@ + c@,
{
    let mut out = cat2(a, b);
    out.append(c);
    out
}

/// Four texts in a row.
pub fn cat4(a: &str, b: &str, c: &str, d: &str) -> (r: String)
    ensures
        r@ == a@ + b@ + c@ + d@,
{
    let mut out = cat3(a, b, c);
    out.append(d);
    out
}

/// Five texts in a row.
pub fn cat5(a: &str, b: &str, c: &str, d: &str, e: &str) -> (r: String)
    ensures
        r@ == a@ + b@ + c@ + d@ + e@,
{
    let mut out = cat4(a, b, c, d);
    out.append(e);
    out
}

// ---------------------------------------------------------------- whitespace

/// The characters with the Unicode property White_Space.
pub open spec fn is_white(c: char) -> bool {
    let n = c as u32;
    ||| 0x9 <= n <= 0xd
    ||| n == 0x20
    ||| n == 0x85
    ||| n == 0xa0
    ||| n == 0x1680
    ||| 0x2000 <= n <= 0x200a
    ||| n == 0x2028
    ||| n == 0x2029
    ||| n == 0x202f
    ||| n == 0x205f
    ||| n == 0x3000
}

pub fn white(c: char) -> (r: bool)
    ensures
        r == is_white(c),
{
    let n: u32 = c as u32;
    (0x9 <= n && n <= 0xd) || n == 0x20 || n == 0x85 || n == 0xa0 || n == 0x1680 || (0x2000 <= n
        && n <= 0x200a) || n == 0x2028 || n == 0x2029 || n == 0x202f || n == 0x205f || n == 0x3000
}

/// `s` without its leading whitespace.
pub open spec fn trimmed_start(s: Seq<char>) -> Seq<char>
    decreases s.len(),
{
    if s.len() > 0 && is_white(s[0]) {
        trimmed_start(s.drop_first())
    } else {
        s
    }
}

/// `s` without its trailing whitespace.
pub open spec fn trimmed_end(s: Seq<char>) -> Seq<char>
    decreases s.len(),
{
    if s.len() > 0 && is_white(s.last()) {
        trimmed_end(s.drop_last())
    } else {
        s
    }
}

/// `s` without the whitespace around it.
pub open spec fn trimmed(s: Seq<char>) -> Seq<char> {
    trimmed_end(trimmed_start(s))
}

fn trim_range(chars: &Vec<char>, from: usize, to: usize) -> (r: (usize, usize))
    requires
        from <= to <= chars@.len(),
    ensures
        from <= r.0 <= r.1 <= to,
        chars@.subrange(r.0 as int, r.1 as int) == trimmed(
            chars@.subrange(from as int, to as int),
        ),
{
    let mut i: usize = from;
    while i < to && white(chars[i])
        invariant
            from <= i <= to <= chars@.len(),
            trimmed_start(chars@.subrange(from as int, to as int)) == trimmed_start(
                chars@.subrange(i as int, to as int),
            ),
        decreases to - i,
    {
        proof {
            let s = chars@.subrange(i as int, to as int);
            assert(s.drop_first() =~= chars@.subrange(i + 1, to as int));
        }
        i += 1;
    }
    let mut j: usize = to;
    while i < j && white(chars[j - 1])
        invariant
            from <= i <= j <= to <= chars@.len(),
            trimmed_end(chars@.subrange(i as int, to as int)) == trimmed_end(
                chars@.subrange(i as int, j as int),
            ),
        decreases j - i,
    {
        proof {
            let s = chars@.subrange(i as int, j as int);
            assert(s.drop_last() =~= chars@.subrange(i as int, j - 1));
        }
        j -= 1;
    }
    (i, j)
}

/// The text without the whitespace around it.
pub fn trim(text: &str) -> (r: String)
    ensures
        r@ == trimmed(text@),
{
    let chars = chars_of(text);
    let n: usize = chars.len();
    let (i, j) = trim_range(&chars, 0, n);
    assert(chars@.subrange(0, n as int) =~= chars@);
    string_of(&chars, i, j)
}

/// The text without its trailing whitespace.
pub fn trim_end(text: &str) -> (r: String)
    ensures
        r@ == trimmed_end(text@),
{
    let chars = chars_of(text);
    let mut n: usize = chars.len();
    assert(chars@.take(n as int) =~= chars@);
    while n > 0 && white(chars[n - 1])
        invariant
            n <= chars@.len(),
            chars@ == text@,
            trimmed_end(text@) == trimmed_end(chars@.take(n as int)),
        decreases n,
    {
        assert(chars@.take(n as int).last() == chars@[n - 1]);
        assert(chars@.take(n as int).drop_last() =~= chars@.take(n - 1));
        n -= 1;
    }
    proof {
        if n > 0 {
            assert(chars@.take(n as int).last() == chars@[n - 1]);
        }
    }
    let out = string_of(&chars, 0, n);
    assert(out@ =~= chars@.take(n as int));
    out
}

/// The length of the leading run without whitespace.
pub open spec fn word_len(s: Seq<char>) -> nat
    decreases s.len(),
{
    if s.len() == 0 || is_white(s[0]) {
        0
    } else {
        1 + word_len(s.drop_first())
    }
}

pub proof fn lemma_word_len(s: Seq<char>)
    ensures
        word_len(s) <= s.len(),
        s.len() > 0 && !is_white(s[0]) ==> word_len(s) > 0,
    decreases s.len(),
{
    if s.len() > 0 && !is_white(s[0]) {
        lemma_word_len(s.drop_first());
    }
}

/// The maximal runs without whitespace, in order.
pub open spec fn words(s: Seq<char>) -> Seq<Seq<char>>
    decreases s.len(),
    via words_decreases
{
    if s.len() == 0 {
        Seq::empty()
    } else if is_white(s[0]) {
        words(s.drop_first())
    } else {
        seq![s.take(word_len(s) as int)] + words(s.skip(word_len(s) as int))
    }
}

#[via_fn]
proof fn words_decreases(s: Seq<char>) {
    lemma_word_len(s);
}

/// Splits at runs of whitespace; no item is empty.
pub fn split_words(text: &str) -> (r: Vec<String>)
    ensures
        views(r@) == words(text@),
{
    let chars = chars_of(text);
    let n: usize = chars.len();
    let mut out: Vec<String> = Vec::new();
    let mut i: usize = 0;
    assert(chars@.skip(0) =~= chars@);
    assert(views(out@) =~= Seq::<Seq<char>>::empty());
    while i < n
        invariant
            i <= n == chars@.len(),
            chars@ == text@,
            words(text@) == views(out@) + words(chars@.skip(i as int)),
        decreases n - i,
    {
        let ghost rest = chars@.skip(i as int);
        if white(chars[i]) {
            assert(rest.drop_first() =~= chars@.skip(i + 1));
            i += 1;
        } else {
            let start: usize = i;
            while i < n && !white(chars[i])
                invariant
                    start <= i <= n == chars@.len(),
                    rest == chars@.skip(start as int),
                    word_len(rest) == (i - start) + word_len(chars@.skip(i as int)),
                decreases n - i,
            {
                assert(chars@.skip(i as int).drop_first() =~= chars@.skip(i + 1));
                i += 1;
            }
            let word = string_of(&chars, start, i);
            proof {
                assert(word_len(rest) == i - start);
                assert(word@ =~= rest.take(i - start));
                assert(rest.skip(i - start) =~= chars@.skip(i as int));
            }
            let ghost before = out@;
            out.push(word);
            proof {
                lemma_word_len(rest);
                assert(views(out@) =~= views(before).push(word@));
                assert(words(text@) =~= views(out@) + words(chars@.skip(i as int)));
            }
        }
    }
    proof {
        assert(chars@.skip(n as int) =~= Seq::<char>::empty());
        assert(views(out@) + Seq::<Seq<char>>::empty() =~= views(out@));
    }
    out
}

// ---------------------------------------------------------------- splitting

/// The position of the first `c`, or the length where there is none.
pub open spec fn first_at(s: Seq<char>, c: char) -> nat
    decreases s.len(),
{
    if s.len() == 0 || s[0] == c {
        0
    } else {
        1 + first_at(s.drop_first(), c)
    }
}

pub proof fn lemma_first_at(s: Seq<char>, c: char)
    ensures
        first_at(s, c) <= s.len(),
        first_at(s, c) < s.len() ==> s[first_at(s, c) as int] == c,
        forall|j: int| 0 <= j < first_at(s, c) ==> s[j] != c,
    decreases s.len(),
{
    if s.len() > 0 && s[0] != c {
        lemma_first_at(s.drop_first(), c);
        assert forall|j: int| 0 <= j < first_at(s, c) implies s[j] != c by {
            if j > 0 {
                assert(s[j] == s.drop_first()[j - 1]);
            }
        }
    }
}

/// The position of the last `c`, if there is one.
pub open spec fn last_at(s: Seq<char>, c: char) -> Option<int>
    decreases s.len(),
{
    if s.len() == 0 {
        None
    } else if s.last() == c {
        Some(s.len() - 1)
    } else {
        last_at(s.drop_last(), c)
    }
}

pub proof fn lemma_last_at(s: Seq<char>, c: char)
    ensures
        last_at(s, c) matches Some(i) ==> 0 <= i < s.len() && s[i] == c && forall|j: int|
            i < j < s.len() ==> s[j] != c,
        last_at(s, c) is None ==> forall|j: int| 0 <= j < s.len() ==> s[j] != c,
    decreases s.len(),
{
    if s.len() > 0 && s.last() != c {
        lemma_last_at(s.drop_last(), c);
        assert forall|j: int| 0 <= j < s.len() - 1 implies s[j] == s.drop_last()[j] by {}
    }
}

fn find_from(chars: &Vec<char>, from: usize, c: char) -> (r: usize)
    requires
        from <= chars@.len(),
    ensures
        from <= r <= chars@.len(),
        r - from == first_at(chars@.skip(from as int), c),
{
    let mut i: usize = from;
    while i < chars.len() && chars[i] != c
        invariant
            from <= i <= chars@.len(),
            first_at(chars@.skip(from as int), c) == (i - from) + first_at(
                chars@.skip(i as int),
                c,
            ),
        decreases chars@.len() - i,
    {
        assert(chars@.skip(i as int).drop_first() =~= chars@.skip(i + 1));
        i += 1;
    }
    i
}

/// Whether `c` occurs.
pub fn contains_char(text: &str, c: char) -> (r: bool)
    ensures
        r == text@.contains(c),
{
    let chars = chars_of(text);
    let i: usize = find_from(&chars, 0, c);
    proof {
        assert(chars@.skip(0) =~= chars@);
        lemma_first_at(chars@, c);
    }
    i < chars.len()
}

/// The pieces between the occurrences of `c`; there is always one.
pub open spec fn pieces(s: Seq<char>, c: char) -> Seq<Seq<char>>
    decreases s.len(),
    via pieces_decreases
{
    let i = first_at(s, c) as int;
    if i >= s.len() {
        seq![s]
    } else {
        seq![s.take(i)] + pieces(s.skip(i + 1), c)
    }
}

#[via_fn]
proof fn pieces_decreases(s: Seq<char>, c: char) {
    lemma_first_at(s, c);
}

/// Splits at every `c`.
pub fn split_char(text: &str, c: char) -> (r: Vec<String>)
    ensures
        views(r@) == pieces(text@, c),
        r@.len() > 0,
{
    let chars = chars_of(text);
    let n: usize = chars.len();
    let mut out: Vec<String> = Vec::new();
    let mut start: usize = 0;
    assert(chars@.skip(0) =~= chars@);
    assert(views(out@) =~= Seq::<Seq<char>>::empty());
    loop
        invariant
            start <= n == chars@.len(),
            chars@ == text@,
            pieces(text@, c) == views(out@) + pieces(chars@.skip(start as int), c),
        decreases n - start,
    {
        let ghost rest = chars@.skip(start as int);
        let i: usize = find_from(&chars, start, c);
        let piece = string_of(&chars, start, i);
        assert(piece@ =~= rest.take(i - start));
        let ghost before = out@;
        out.push(piece);
        assert(views(out@) =~= views(before).push(piece@));
        if i >= n {
            proof {
                assert(rest.take(i - start) =~= rest);
                assert(pieces(text@, c) =~= views(out@));
            }
            return out;
        }
        proof {
            assert(rest.skip(i - start + 1) =~= chars@.skip(i + 1));
            assert(pieces(text@, c) =~= views(out@) + pieces(chars@.skip(i + 1), c));
        }
        start = i + 1;
    }
}

/// What stands before and after the first `c`, if it occurs.
pub open spec fn cut_first(s: Seq<char>, c: char) -> Option<(Seq<char>, Seq<char>)> {
    let i = first_at(s, c) as int;
    if i < s.len() {
        Some((s.take(i), s.skip(i + 1)))
    } else {
        None
    }
}

pub fn split_once(text: &str, c: char) -> (r: Option<(String, String)>)
    ensures
        r matches Some(p) ==> cut_first(text@, c) == Some((p.0@, p.1@)),
        r is None ==> cut_first(text@, c) is None,
{
    let chars = chars_of(text);
    let n: usize = chars.len();
    let i: usize = find_from(&chars, 0, c);
    assert(chars@.skip(0) =~= chars@);
    if i < n {
        let head = string_of(&chars, 0, i);
        let tail = string_of(&chars, i + 1, n);
        assert(head@ =~= text@.take(i as int));
        assert(tail@ =~= text@.skip(i + 1));
        Some((head, tail))
    } else {
        None
    }
}

/// What stands before and after the last `c`, if it occurs.
pub open spec fn cut_last(s: Seq<char>, c: char) -> Option<(Seq<char>, Seq<char>)> {
    match last_at(s, c) {
        Some(i) => Some((s.take(i), s.skip(i + 1))),
        None => None,
    }
}

pub fn rsplit_once(text: &str, c: char) -> (r: Option<(String, String)>)
    ensures
        r matches Some(p) ==> cut_last(text@, c) == Some((p.0@, p.1@)),
        r is None ==> cut_last(text@, c) is None,
{
    let chars = chars_of(text);
    let n: usize = chars.len();
    let mut i: usize = n;
    assert(chars@.take(n as int) =~= chars@);
    while i > 0
        invariant
            i <= n == chars@.len(),
            chars@ == text@,
            last_at(text@, c) == last_at(chars@.take(i as int), c),
        decreases i,
    {
        if chars[i - 1] == c {
            let head = string_of(&chars, 0, i - 1);
            let tail = string_of(&chars, i, n);
            proof {
                assert(chars@.take(i as int).last() == c);
                assert(head@ =~= text@.take(i - 1));
                assert(tail@ =~= text@.skip(i as int));
            }
            return Some((head, tail));
        }
        assert(chars@.take(i as int).drop_last() =~= chars@.take(i - 1));
        i -= 1;
    }
    None
}

/// The lines of `s`: each ends at a line feed, with a carriage return before
/// that line feed dropped; what follows the last line feed is a line unless it
/// is empty.
pub open spec fn line_list(s: Seq<char>) -> Seq<Seq<char>>
    decreases s.len(),
    via line_list_decreases
{
    let i = first_at(s, '\n') as int;
    if s.len() == 0 {
        Seq::empty()
    } else if i >= s.len() {
        seq![s]
    } else {
        seq![without_return(s.take(i))] + line_list(s.skip(i + 1))
    }
}

#[via_fn]
proof fn line_list_decreases(s: Seq<char>) {
    lemma_first_at(s, '\n');
}

/// `s` without one carriage return at its end.
pub open spec fn without_return(s: Seq<char>) -> Seq<char> {
    if s.len() > 0 && s.last() == '\r' {
        s.drop_last()
    } else {
        s
    }
}

/// The lines of the text.
pub fn lines(text: &str) -> (r: Vec<String>)
    ensures
        views(r@) == line_list(text@),
{
    let chars = chars_of(text);
    let n: usize = chars.len();
    let mut out: Vec<String> = Vec::new();
    let mut start: usize = 0;
    assert(chars@.skip(0) =~= chars@);
    assert(views(out@) =~= Seq::<Seq<char>>::empty());
    while start < n
        invariant
            start <= n == chars@.len(),
            chars@ == text@,
            line_list(text@) == views(out@) + line_list(chars@.skip(start as int)),
        decreases n - start,
    {
        let ghost rest = chars@.skip(start as int);
        let i: usize = find_from(&chars, start, '\n');
        let ghost before = out@;
        if i >= n {
            let line = string_of(&chars, start, n);
            assert(line@ =~= rest);
            out.push(line);
            proof {
                assert(views(out@) =~= views(before).push(line@));
                assert(line_list(text@) =~= views(out@));
                assert(chars@.skip(n as int) =~= Seq::<char>::empty());
                assert(line_list(text@) =~= views(out@) + line_list(chars@.skip(n as int)));
            }
            start = n;
        } else {
            let mut end: usize = i;
            if start < i && chars[i - 1] == '\r' {
                end = i - 1;
            }
            let line = string_of(&chars, start, end);
            proof {
                let head = rest.take(i - start);
                if head.len() > 0 {
                    assert(head.last() == chars@[i - 1]);
                }
                assert(line@ =~= without_return(head));
                assert(rest.skip(i - start + 1) =~= chars@.skip(i + 1));
            }
            out.push(line);
            proof {
                assert(views(out@) =~= views(before).push(line@));
                assert(line_list(text@) =~= views(out@) + line_list(chars@.skip(i + 1)));
            }
            start = i + 1;
        }
    }
    proof {
        assert(chars@.skip(n as int) =~= Seq::<char>::empty());
        assert(views(out@) + Seq::<Seq<char>>::empty() =~= views(out@));
    }
    out
}

// ---------------------------------------------------------------- searching

/// Whether `p` stands at position `i` of `s`.
pub open spec fn stands_at(s: Seq<char>, p: Seq<char>, i: int) -> bool {
    0 <= i && i + p.len() <= s.len() && s.subrange(i, i + p.len()) == p
}

/// Whether `p` occurs in `s`.
pub open spec fn occurs(s: Seq<char>, p: Seq<char>) -> bool {
    exists|i: int| stands_at(s, p, i)
}

/// The first position at or after `from` where `p` stands.
pub open spec fn find_at(s: Seq<char>, p: Seq<char>, from: int) -> Option<int>
    decreases s.len() + 1 - from,
{
    if from < 0 || from + p.len() > s.len() {
        None
    } else if stands_at(s, p, from) {
        Some(from)
    } else {
        find_at(s, p, from + 1)
    }
}

pub proof fn lemma_find_at(s: Seq<char>, p: Seq<char>, from: int)
    requires
        0 <= from,
    ensures
        find_at(s, p, from) matches Some(i) ==> from <= i && stands_at(s, p, i) && forall|j: int|
            from <= j < i ==> !stands_at(s, p, j),
        find_at(s, p, from) is None ==> forall|j: int| from <= j ==> !stands_at(s, p, j),
    decreases s.len() + 1 - from,
{
    if from + p.len() <= s.len() && !stands_at(s, p, from) {
        lemma_find_at(s, p, from + 1);
    }
}

fn stands(chars: &Vec<char>, pattern: &Vec<char>, at: usize) -> (r: bool)
    requires
        at <= chars@.len(),
    ensures
        r == stands_at(chars@, pattern@, at as int),
{
    if pattern.len() > chars.len() - at {
        return false;
    }
    let n: usize = chars.len();
    let mut i: usize = 0;
    while i < pattern.len()
        invariant
            i <= pattern@.len(),
            at + pattern@.len() <= chars@.len() == n,
            forall|j: int| 0 <= j < i ==> chars@[at + j] == pattern@[j],
        decreases pattern@.len() - i,
    {
        if chars[at + i] != pattern[i] {
            proof {
                assert(chars@.subrange(at as int, at + pattern@.len())[i as int] == chars@[at + i]);
            }
            return false;
        }
        i += 1;
    }
    assert(chars@.subrange(at as int, at + pattern@.len()) =~= pattern@);
    true
}

fn search(chars: &Vec<char>, pattern: &Vec<char>, from: usize) -> (r: Option<usize>)
    requires
        from <= chars@.len(),
    ensures
        r matches Some(i) ==> find_at(chars@, pattern@, from as int) == Some(i as int) && i
            + pattern@.len() <= chars@.len() && from <= i,
        r is None ==> find_at(chars@, pattern@, from as int) is None,
{
    let n: usize = chars.len();
    let mut i: usize = from;
    loop
        invariant
            from <= i <= n == chars@.len(),
            find_at(chars@, pattern@, from as int) == find_at(chars@, pattern@, i as int),
        decreases n - i,
    {
        if stands(chars, pattern, i) {
            return Some(i);
        }
        if i == n {
            proof {
                if pattern@.len() == 0 {
                    assert(chars@.subrange(n as int, n as int) =~= pattern@);
                }
            }
            return None;
        }
        i += 1;
    }
}

/// The position of the first occurrence, counted in characters.
pub fn find(text: &str, pattern: &str) -> (r: Option<usize>)
    ensures
        r matches Some(i) ==> find_at(text@, pattern@, 0) == Some(i as int) && i + pattern@.len()
            <= text@.len(),
        r is None ==> find_at(text@, pattern@, 0) is None,
{
    let chars = chars_of(text);
    let needle = chars_of(pattern);
    search(&chars, &needle, 0)
}

/// Whether the pattern occurs.
pub fn contains(text: &str, pattern: &str) -> (r: bool)
    ensures
        r == occurs(text@, pattern@),
{
    proof {
        lemma_find_at(text@, pattern@, 0);
    }
    match find(text, pattern) {
        Some(i) => true,
        None => {
            proof {
                assert forall|i: int| !stands_at(text@, pattern@, i) by {
                    if 0 <= i {
                    }
                }
            }
            false
        },
    }
}

/// Whether `s` begins with `p`.
pub open spec fn begins(s: Seq<char>, p: Seq<char>) -> bool {
    p.len() <= s.len() && s.take(p.len() as int) == p
}

/// Whether `s` ends with `p`.
pub open spec fn ends(s: Seq<char>, p: Seq<char>) -> bool {
    p.len() <= s.len() && s.skip(s.len() - p.len()) == p
}

pub fn starts_with(text: &str, prefix: &str) -> (r: bool)
    ensures
        r == begins(text@, prefix@),
{
    let chars = chars_of(text);
    let pattern = chars_of(prefix);
    if pattern.len() <= chars.len() {
        assert(text@.subrange(0, prefix@.len() as int) =~= text@.take(prefix@.len() as int));
    }
    stands(&chars, &pattern, 0)
}

pub fn ends_with(text: &str, suffix: &str) -> (r: bool)
    ensures
        r == ends(text@, suffix@),
{
    let chars = chars_of(text);
    let pattern = chars_of(suffix);
    if pattern.len() > chars.len() {
        return false;
    }
    proof {
        let at = text@.len() - suffix@.len();
        assert(text@.subrange(at, at + suffix@.len()) =~= text@.skip(at));
    }
    stands(&chars, &pattern, chars.len() - pattern.len())
}

/// What follows `prefix`, if the text begins with it.
pub fn strip_prefix(text: &str, prefix: &str) -> (r: Option<String>)
    ensures
        r matches Some(rest) ==> begins(text@, prefix@) && rest@ == text@.skip(
            prefix@.len() as int,
        ),
        r is None ==> !begins(text@, prefix@),
{
    if !starts_with(text, prefix) {
        return None;
    }
    Some(skip_chars(text, prefix.unicode_len()))
}

/// The text without its first `count` characters.
pub fn skip_chars(text: &str, count: usize) -> (r: String)
    requires
        count <= text@.len(),
    ensures
        r@ == text@.skip(count as int),
{
    let chars = chars_of(text);
    let n: usize = chars.len();
    assert(chars@.subrange(count as int, n as int) =~= text@.skip(count as int));
    string_of(&chars, count, n)
}

/// The first `count` characters.
pub fn take_chars(text: &str, count: usize) -> (r: String)
    requires
        count <= text@.len(),
    ensures
        r@ == text@.take(count as int),
{
    let chars = chars_of(text);
    assert(chars@.subrange(0, count as int) =~= text@.take(count as int));
    string_of(&chars, 0, count)
}

/// `s` with every occurrence of `p` replaced, from left to right without
/// overlap.
pub open spec fn replaced(s: Seq<char>, p: Seq<char>, by: Seq<char>) -> Seq<char>
    decreases s.len(),
    via replaced_decreases
{
    match find_at(s, p, 0) {
        Some(i) => if p.len() > 0 {
            s.take(i) + by + replaced(s.skip(i + p.len()), p, by)
        } else {
            s
        },
        None => s,
    }
}

#[via_fn]
proof fn replaced_decreases(s: Seq<char>, p: Seq<char>, by: Seq<char>) {
    lemma_find_at(s, p, 0);
}

proof fn lemma_find_at_skip(s: Seq<char>, p: Seq<char>, k: int, from: int)
    requires
        0 <= k <= from,
        k <= s.len(),
    ensures
        find_at(s, p, from) == (match find_at(s.skip(k), p, from - k) {
            Some(i) => Some(i + k),
            None => None::<int>,
        }),
    decreases s.len() + 1 - from,
{
    if from + p.len() <= s.len() {
        assert(s.skip(k).subrange(from - k, from - k + p.len()) =~= s.subrange(
            from,
            from + p.len(),
        ));
        if !stands_at(s, p, from) {
            lemma_find_at_skip(s, p, k, from + 1);
        }
    }
}

/// Replaces every occurrence of a pattern that is not empty.
pub fn replace(text: &str, pattern: &str, by: &str) -> (r: String)
    requires
        pattern@.len() > 0,
    ensures
        r@ == replaced(text@, pattern@, by@),
{
    let chars = chars_of(text);
    let needle = chars_of(pattern);
    let n: usize = chars.len();
    let mut out = String::new();
    let mut start: usize = 0;
    assert(chars@.skip(0) =~= chars@);
    assert(out@ + replaced(text@, pattern@, by@) =~= replaced(text@, pattern@, by@));
    loop
        invariant
            start <= n == chars@.len(),
            chars@ == text@,
            needle@ == pattern@,
            pattern@.len() > 0,
            replaced(text@, pattern@, by@) == out@ + replaced(
                chars@.skip(start as int),
                pattern@,
                by@,
            ),
        decreases n - start,
    {
        let ghost rest = chars@.skip(start as int);
        proof {
            lemma_find_at_skip(chars@, pattern@, start as int, start as int);
            lemma_find_at(rest, pattern@, 0);
        }
        match search(&chars, &needle, start) {
            Some(i) => {
                let head = string_of(&chars, start, i);
                let next: usize = i + needle.len();
                proof {
                    assert(head@ =~= rest.take(i - start));
                    assert(rest.skip(i - start + pattern@.len()) =~= chars@.skip(next as int));
                }
                let ghost before = out@;
                out.append(head.as_str());
                out.append(by);
                proof {
                    let tail = replaced(chars@.skip(next as int), pattern@, by@);
                    assert(before + (head@ + by@ + tail) =~= before + head@ + by@ + tail);
                }
                start = next;
            },
            None => {
                let tail = string_of(&chars, start, n);
                assert(tail@ =~= rest);
                out.append(tail.as_str());
                return out;
            },
        }
    }
}

// ---------------------------------------------------------------- joining

/// The items with `sep` between neighbours.
pub open spec fn joined(items: Seq<Seq<char>>, sep: Seq<char>) -> Seq<char>
    decreases items.len(),
{
    if items.len() == 0 {
        Seq::empty()
    } else if items.len() == 1 {
        items[0]
    } else {
        joined(items.drop_last(), sep) + sep + items.last()
    }
}

pub fn join(items: &Vec<String>, sep: &str) -> (r: String)
    ensures
        r@ == joined(views(items@), sep@),
{
    let mut out = String::new();
    let mut i: usize = 0;
    assert(views(items@).take(0) =~= Seq::<Seq<char>>::empty());
    while i < items.len()
        invariant
            i <= items@.len(),
            out@ == joined(views(items@).take(i as int), sep@),
        decreases items@.len() - i,
    {
        proof {
            let now = views(items@).take(i + 1);
            assert(now.drop_last() =~= views(items@).take(i as int));
            assert(now.last() == items@[i as int]@);
        }
        if i > 0 {
            out.append(sep);
            out.append(items[i].as_str());
        } else {
            out = copy(items[i].as_str());
        }
        i += 1;
    }
    assert(views(items@).take(i as int) =~= views(items@));
    out
}

/// What follows the prefix in the last item that begins with it.
pub open spec fn last_rest(items: Seq<Seq<char>>, prefix: Seq<char>) -> Option<Seq<char>>
    decreases items.len(),
{
    if items.len() == 0 {
        None
    } else if begins(items.last(), prefix) {
        Some(items.last().skip(prefix.len() as int))
    } else {
        last_rest(items.drop_last(), prefix)
    }
}

pub fn find_last_rest(items: &Vec<String>, prefix: &str) -> (r: Option<String>)
    ensures
        r matches Some(s) ==> last_rest(views(items@), prefix@) == Some(s@),
        r is None ==> last_rest(views(items@), prefix@) is None,
{
    let ghost all = views(items@);
    let mut i: usize = items.len();
    assert(all.take(items@.len() as int) =~= all);
    while i > 0
        invariant
            i <= items@.len(),
            all == views(items@),
            last_rest(all, prefix@) == last_rest(all.take(i as int), prefix@),
        decreases i,
    {
        let ghost head = all.take(i as int);
        assert(head.last() == items@[i - 1]@);
        assert(head.drop_last() =~= all.take(i - 1));
        if let Some(value) = strip_prefix(items[i - 1].as_str(), prefix) {
            return Some(value);
        }
        i -= 1;
    }
    None
}

/// The first word, if there is one.
pub open spec fn first_word(s: Seq<char>) -> Option<Seq<char>> {
    if words(s).len() > 0 {
        Some(words(s)[0])
    } else {
        None
    }
}

pub fn leading_word(text: &str) -> (r: Option<String>)
    ensures
        r matches Some(w) ==> first_word(text@) == Some(w@),
        r is None ==> first_word(text@) is None,
{
    let list = split_words(text);
    assert(words(text@).len() == list@.len());
    if list.len() > 0 {
        assert(words(text@)[0] == list@[0]@);
        Some(copy(list[0].as_str()))
    } else {
        None
    }
}

/// `s` cut after `max` characters, with an ellipsis where something was cut.
pub open spec fn shortened(s: Seq<char>, max: nat) -> Seq<char> {
    if s.len() <= max {
        s
    } else {
        s.take(max as int).push('…')
    }
}

/// Cuts a text after `max` characters and marks the cut.
pub fn shorten(text: &str, max: usize) -> (r: String)
    ensures
        r@ == shortened(text@, max as nat),
{
    let chars = chars_of(text);
    if chars.len() <= max {
        copy(text)
    } else {
        let mut out = string_of(&chars, 0, max);
        assert(out@ =~= text@.take(max as int));
        out.push('…');
        out
    }
}

/// A shortened text has at most one character more than the limit, and a text
/// within the limit stays as it is.
pub proof fn shortening_bounds(s: Seq<char>, max: nat)
    ensures
        shortened(s, max).len() <= max + 1,
        s.len() <= max ==> shortened(s, max) == s,
        s.len() > max ==> shortened(s, max).last() == '…' && shortened(s, max).take(max as int)
            == s.take(max as int),
{
    if s.len() > max {
        assert(shortened(s, max).take(max as int) =~= s.take(max as int));
    }
}

// ---------------------------------------------------------------- letters and digits

pub open spec fn is_digit(c: char) -> bool {
    '0' <= c <= '9'
}

pub fn digit(c: char) -> (r: bool)
    ensures
        r == is_digit(c),
{
    '0' <= c && c <= '9'
}

/// Whether every character is an ASCII digit.
pub open spec fn all_digits(s: Seq<char>) -> bool {
    forall|i: int| 0 <= i < s.len() ==> is_digit(s[i])
}

pub fn only_digits(text: &str) -> (r: bool)
    ensures
        r == all_digits(text@),
{
    let chars = chars_of(text);
    let mut i: usize = 0;
    while i < chars.len()
        invariant
            i <= chars@.len(),
            chars@ == text@,
            forall|j: int| 0 <= j < i ==> is_digit(chars@[j]),
        decreases chars@.len() - i,
    {
        if !digit(chars[i]) {
            assert(!is_digit(text@[i as int]));
            return false;
        }
        i += 1;
    }
    true
}

/// `c` with an ASCII capital turned into its small letter.
pub open spec fn lower_char(c: char) -> char {
    if 'A' <= c <= 'Z' {
        ((c as u8) + 32) as char
    } else {
        c
    }
}

/// `s` with ASCII capitals turned into small letters.
pub open spec fn ascii_lower(s: Seq<char>) -> Seq<char> {
    s.map_values(|c: char| lower_char(c))
}

fn to_lower_char(c: char) -> (r: char)
    ensures
        r == lower_char(c),
{
    if 'A' <= c && c <= 'Z' {
        ((c as u8) + 32) as char
    } else {
        c
    }
}

pub fn to_ascii_lower(text: &str) -> (r: String)
    ensures
        r@ == ascii_lower(text@),
{
    let chars = chars_of(text);
    let mut out = String::new();
    let mut i: usize = 0;
    while i < chars.len()
        invariant
            i <= chars@.len(),
            chars@ == text@,
            out@ == ascii_lower(text@).take(i as int),
        decreases chars@.len() - i,
    {
        out.push(to_lower_char(chars[i]));
        i += 1;
    }
    out
}

/// Whether two texts agree up to the case of ASCII letters.
pub fn same_ignoring_case(left: &str, right: &str) -> (r: bool)
    ensures
        r == (ascii_lower(left@) == ascii_lower(right@)),
{
    let a = to_ascii_lower(left);
    let b = to_ascii_lower(right);
    same(a.as_str(), b.as_str())
}

/// Lexicographic order by code point.
pub open spec fn before(a: Seq<char>, b: Seq<char>) -> bool
    decreases a.len(),
{
    if b.len() == 0 {
        false
    } else if a.len() == 0 {
        true
    } else if a[0] != b[0] {
        a[0] < b[0]
    } else {
        before(a.drop_first(), b.drop_first())
    }
}

/// The order by code point is a strict total order.
pub proof fn lemma_before_total(a: Seq<char>, b: Seq<char>)
    ensures
        !(before(a, b) && before(b, a)),
        !before(a, a),
        before(a, b) || before(b, a) || a == b,
    decreases a.len(),
{
    if a.len() == 0 {
        assert(b.len() == 0 ==> a =~= b);
    } else {
        lemma_before_total(a.drop_first(), a.drop_first());
        if b.len() > 0 && a[0] == b[0] {
            lemma_before_total(a.drop_first(), b.drop_first());
            if a.drop_first() == b.drop_first() {
                assert forall|i: int| 0 <= i < a.len() implies a[i] == b[i] by {
                    if i > 0 {
                        assert(a[i] == a.drop_first()[i - 1]);
                        assert(b[i] == b.drop_first()[i - 1]);
                    }
                }
                assert(a.len() == a.drop_first().len() + 1 && b.len() == b.drop_first().len() + 1);
                assert(a =~= b);
            }
        }
    }
}

pub proof fn lemma_before_transitive(a: Seq<char>, b: Seq<char>, c: Seq<char>)
    requires
        before(a, b),
        before(b, c),
    ensures
        before(a, c),
    decreases a.len(),
{
    if a.len() > 0 && a[0] == b[0] && b[0] == c[0] {
        lemma_before_transitive(a.drop_first(), b.drop_first(), c.drop_first());
    }
}

/// Where two texts first differ decides their order.
pub proof fn lemma_before_at(a: Seq<char>, b: Seq<char>, k: int)
    requires
        0 <= k <= a.len(),
        k < b.len(),
        forall|j: int| 0 <= j < k ==> a[j] == b[j],
        k == a.len() || a[k] < b[k],
    ensures
        before(a, b),
    decreases k,
{
    if k > 0 {
        lemma_before_at(a.drop_first(), b.drop_first(), k - 1);
    }
}

pub fn comes_before(left: &str, right: &str) -> (r: bool)
    ensures
        r == before(left@, right@),
{
    let a = chars_of(left);
    let b = chars_of(right);
    let mut i: usize = 0;
    assert(a@.skip(0) =~= a@);
    assert(b@.skip(0) =~= b@);
    loop
        invariant
            i <= a@.len(),
            i <= b@.len(),
            a@ == left@,
            b@ == right@,
            before(left@, right@) == before(a@.skip(i as int), b@.skip(i as int)),
        decreases a@.len() - i,
    {
        if i >= b.len() {
            return false;
        }
        if i >= a.len() {
            return true;
        }
        if a[i] != b[i] {
            return a[i] < b[i];
        }
        assert(a@.skip(i as int).drop_first() =~= a@.skip(i + 1));
        assert(b@.skip(i as int).drop_first() =~= b@.skip(i + 1));
        i += 1;
    }
}

// ---------------------------------------------------------------- numbers

/// The value of a digit in a base up to sixteen.
pub open spec fn digit_value(c: char) -> int {
    if '0' <= c <= '9' {
        c as int - '0' as int
    } else if 'a' <= c <= 'f' {
        c as int - 'a' as int + 10
    } else if 'A' <= c <= 'F' {
        c as int - 'A' as int + 10
    } else {
        99
    }
}

fn value_of(c: char) -> (r: u32)
    ensures
        r == digit_value(c),
{
    let n: u32 = c as u32;
    if '0' <= c && c <= '9' {
        n - 48
    } else if 'a' <= c && c <= 'f' {
        n - 97 + 10
    } else if 'A' <= c && c <= 'F' {
        n - 65 + 10
    } else {
        99
    }
}

/// Whether every character is a digit of the base.
pub open spec fn in_base(s: Seq<char>, base: int) -> bool {
    forall|i: int| 0 <= i < s.len() ==> digit_value(s[i]) < base
}

/// The number written by digits of the base, most significant first.
pub open spec fn number_of(s: Seq<char>, base: int) -> int
    decreases s.len(),
{
    if s.len() == 0 {
        0
    } else {
        number_of(s.drop_last(), base) * base + digit_value(s.last())
    }
}

proof fn lemma_number_grows(s: Seq<char>, base: int, k: int)
    requires
        base >= 1,
        0 <= k <= s.len(),
    ensures
        0 <= number_of(s.take(k), base) <= number_of(s, base),
    decreases s.len(),
{
    if k == s.len() {
        assert(s.take(k) =~= s);
        if s.len() > 0 {
            lemma_number_grows(s.drop_last(), base, s.len() - 1);
            assert(s.drop_last().take(s.len() - 1) =~= s.drop_last());
            assert(number_of(s.drop_last(), base) * base >= 0) by (nonlinear_arith)
                requires
                    number_of(s.drop_last(), base) >= 0,
                    base >= 1,
            ;
        }
    } else {
        lemma_number_grows(s.drop_last(), base, k);
        assert(s.drop_last().take(k) =~= s.take(k));
        assert(number_of(s.drop_last(), base) * base >= number_of(s.drop_last(), base))
            by (nonlinear_arith)
            requires
                number_of(s.drop_last(), base) >= 0,
                base >= 1,
        ;
    }
}

/// What an unsigned integer literal in the base denotes: an optional `+`, at
/// least one digit, nothing else, and a value of at most `max`.
pub open spec fn unsigned_literal(s: Seq<char>, base: int, max: int) -> Option<int> {
    let body = if s.len() > 0 && s[0] == '+' {
        s.drop_first()
    } else {
        s
    };
    if body.len() > 0 && in_base(body, base) && number_of(body, base) <= max {
        Some(number_of(body, base))
    } else {
        None
    }
}

fn parse_digits(chars: &Vec<char>, from: usize, base: u32, max: u64) -> (r: Option<u64>)
    requires
        from <= chars@.len(),
        2 <= base <= 16,
    ensures
        ({
            let body = chars@.skip(from as int);
            let good = body.len() > 0 && in_base(body, base as int) && number_of(body, base as int)
                <= max;
            &&& good ==> r is Some && r->0 == number_of(body, base as int)
            &&& !good ==> r is None
        }),
{
    let n: usize = chars.len();
    let ghost body = chars@.skip(from as int);
    if from == n {
        return None;
    }
    let mut value: u64 = 0;
    let mut i: usize = from;
    assert(body.take(0) =~= Seq::<char>::empty());
    while i < n
        invariant
            from <= i <= n == chars@.len(),
            2 <= base <= 16,
            body == chars@.skip(from as int),
            in_base(body.take(i - from), base as int),
            value == number_of(body.take(i - from), base as int),
            value <= max,
        decreases n - i,
    {
        let d: u32 = value_of(chars[i]);
        assert(body[i - from] == chars@[i as int]);
        if d >= base {
            assert(!in_base(body, base as int));
            return None;
        }
        proof {
            let now = body.take(i - from + 1);
            assert(now.drop_last() =~= body.take(i - from));
            assert(now.last() == chars@[i as int]);
            lemma_number_grows(body, base as int, i - from + 1);
            assert(value * base <= u64::MAX as int * 16) by (nonlinear_arith)
                requires
                    value <= u64::MAX,
                    0 <= base <= 16,
            ;
        }
        let wide: u128 = (value as u128) * (base as u128) + (d as u128);
        if wide > max as u128 {
            return None;
        }
        value = wide as u64;
        i += 1;
    }
    assert(body.take(n - from) =~= body);
    Some(value)
}

fn parse_unsigned(text: &str, base: u32, max: u64) -> (r: Option<u64>)
    requires
        2 <= base <= 16,
    ensures
        r matches Some(v) ==> unsigned_literal(text@, base as int, max as int) == Some(v as int),
        r is None ==> unsigned_literal(text@, base as int, max as int) is None,
{
    let chars = chars_of(text);
    assert(chars@.skip(0) =~= chars@);
    if chars.len() > 0 && chars[0] == '+' {
        assert(chars@.skip(1) =~= chars@.drop_first());
        parse_digits(&chars, 1, base, max)
    } else {
        parse_digits(&chars, 0, base, max)
    }
}

/// A decimal number that fits in 64 bits.
pub fn parse_u64(text: &str) -> (r: Option<u64>)
    ensures
        r matches Some(v) ==> unsigned_literal(text@, 10, u64::MAX as int) == Some(v as int),
        r is None ==> unsigned_literal(text@, 10, u64::MAX as int) is None,
{
    parse_unsigned(text, 10, u64::MAX)
}

/// A decimal number that fits in a machine word.
pub fn parse_usize(text: &str) -> (r: Option<usize>)
    ensures
        r matches Some(v) ==> unsigned_literal(text@, 10, usize::MAX as int) == Some(v as int),
        r is None ==> unsigned_literal(text@, 10, usize::MAX as int) is None,
{
    match parse_unsigned(text, 10, usize::MAX as u64) {
        Some(v) => Some(v as usize),
        None => None,
    }
}

/// A decimal number that fits in 32 bits.
pub fn parse_u32(text: &str) -> (r: Option<u32>)
    ensures
        r matches Some(v) ==> unsigned_literal(text@, 10, u32::MAX as int) == Some(v as int),
        r is None ==> unsigned_literal(text@, 10, u32::MAX as int) is None,
{
    match parse_unsigned(text, 10, 0xffff_ffff) {
        Some(v) => Some(v as u32),
        None => None,
    }
}

/// A decimal number that fits in 16 bits.
pub fn parse_u16(text: &str) -> (r: Option<u16>)
    ensures
        r matches Some(v) ==> unsigned_literal(text@, 10, u16::MAX as int) == Some(v as int),
        r is None ==> unsigned_literal(text@, 10, u16::MAX as int) is None,
{
    match parse_unsigned(text, 10, 0xffff) {
        Some(v) => Some(v as u16),
        None => None,
    }
}

/// A hexadecimal number that fits in 32 bits.
pub fn parse_hex_u32(text: &str) -> (r: Option<u32>)
    ensures
        r matches Some(v) ==> unsigned_literal(text@, 16, u32::MAX as int) == Some(v as int),
        r is None ==> unsigned_literal(text@, 16, u32::MAX as int) is None,
{
    match parse_unsigned(text, 16, 0xffff_ffff) {
        Some(v) => Some(v as u32),
        None => None,
    }
}

/// A hexadecimal number that fits in 16 bits.
pub fn parse_hex_u16(text: &str) -> (r: Option<u16>)
    ensures
        r matches Some(v) ==> unsigned_literal(text@, 16, u16::MAX as int) == Some(v as int),
        r is None ==> unsigned_literal(text@, 16, u16::MAX as int) is None,
{
    match parse_unsigned(text, 16, 0xffff) {
        Some(v) => Some(v as u16),
        None => None,
    }
}

/// What a signed decimal literal denotes: an optional sign, at least one digit,
/// and a value in the range of `i32`.
pub open spec fn signed_literal(s: Seq<char>) -> Option<int> {
    if s.len() > 0 && s[0] == '-' {
        let body = s.drop_first();
        if body.len() > 0 && in_base(body, 10) && number_of(body, 10) <= 0x8000_0000 {
            Some(-number_of(body, 10))
        } else {
            None
        }
    } else {
        unsigned_literal(s, 10, i32::MAX as int)
    }
}

/// A signed decimal number that fits in 32 bits.
pub fn parse_i32(text: &str) -> (r: Option<i32>)
    ensures
        r matches Some(v) ==> signed_literal(text@) == Some(v as int),
        r is None ==> signed_literal(text@) is None,
{
    let chars = chars_of(text);
    if chars.len() > 0 && chars[0] == '-' {
        assert(chars@.skip(1) =~= chars@.drop_first());
        match parse_digits(&chars, 1, 10, 0x8000_0000) {
            Some(v) => Some((0 - (v as i64)) as i32),
            None => None,
        }
    } else {
        match parse_unsigned(text, 10, 0x7fff_ffff) {
            Some(v) => Some(v as i32),
            None => None,
        }
    }
}

/// The character of a digit below sixteen, with small letters.
pub open spec fn digit_char(d: int) -> char {
    if d < 10 {
        ('0' as u8 + d) as char
    } else {
        ('a' as u8 + (d - 10)) as char
    }
}

fn char_of_digit(d: u64) -> (r: char)
    requires
        d < 16,
    ensures
        r == digit_char(d as int),
{
    if d < 10 {
        (48 + d as u8) as char
    } else {
        (97 + (d as u8 - 10)) as char
    }
}

/// The digits of `n` in the base, most significant first, without leading zeros.
pub open spec fn digits(n: nat, base: nat) -> Seq<char>
    decreases n,
{
    if base < 2 {
        Seq::empty()
    } else if n < base {
        seq![digit_char(n as int)]
    } else {
        proof {
            assert(n / base < n) by (nonlinear_arith)
                requires
                    n >= base,
                    base >= 2,
            ;
        }
        digits(n / base, base).push(digit_char((n % base) as int))
    }
}

/// The decimal digits of `n`.
pub open spec fn decimal(n: nat) -> Seq<char> {
    digits(n, 10)
}

fn render(n: u64, base: u64) -> (r: String)
    requires
        2 <= base <= 16,
    ensures
        r@ == digits(n as nat, base as nat),
    decreases n,
{
    if n < base {
        let mut out = String::new();
        out.push(char_of_digit(n));
        assert(out@ =~= seq![digit_char(n as int)]);
        out
    } else {
        proof {
            assert(n / base < n && n % base < base) by (nonlinear_arith)
                requires
                    n >= base,
                    base >= 2,
            ;
        }
        let mut out = render(n / base, base);
        out.push(char_of_digit(n % base));
        out
    }
}

/// The decimal digits of a number.
pub fn from_u64(n: u64) -> (r: String)
    ensures
        r@ == decimal(n as nat),
{
    render(n, 10)
}

/// The hexadecimal digits of a number, with small letters.
pub fn hex_from_u64(n: u64) -> (r: String)
    ensures
        r@ == digits(n as nat, 16),
{
    render(n, 16)
}

/// The decimal digits of a number with a minus sign where it is negative.
pub open spec fn signed_decimal(n: int) -> Seq<char> {
    if n < 0 {
        seq!['-'] + decimal((-n) as nat)
    } else {
        decimal(n as nat)
    }
}

pub fn from_i64(n: i64) -> (r: String)
    ensures
        r@ == signed_decimal(n as int),
{
    if n < 0 {
        let magnitude: u64 = if n == i64::MIN {
            0x8000_0000_0000_0000
        } else {
            (0 - n) as u64
        };
        let body = from_u64(magnitude);
        let mut out = String::new();
        out.push('-');
        out.append(body.as_str());
        assert(out@ =~= seq!['-'] + body@);
        out
    } else {
        from_u64(n as u64)
    }
}

// ---------------------------------------------------------------- std's tables

/// What `str::to_lowercase` gives for a text.
pub uninterp spec fn lowercase(text: Seq<char>) -> Seq<char>;

/// Whether every character is ASCII.
pub open spec fn ascii(s: Seq<char>) -> bool {
    forall|i: int| 0 <= i < s.len() ==> (s[i] as u32) < 128
}

/// `str::to_lowercase`: the lower case after Unicode, which is named here. On
/// ASCII text it turns capitals into small letters.
#[verifier::external_body]
pub(crate) fn to_lower(text: &str) -> (r: String)
    ensures
        r@ == lowercase(text@),
        ascii(text@) ==> r@ == ascii_lower(text@),
{
    text.to_lowercase()
}

/// What `String::from_utf8_lossy` reads from bytes.
pub uninterp spec fn lossy(bytes: Seq<u8>) -> Seq<char>;

/// `String::from_utf8_lossy`: the bytes read as UTF-8, with U+FFFD for what is
/// none; the result is named here. ASCII bytes are their characters.
#[verifier::external_body]
pub(crate) fn from_bytes(bytes: &Vec<u8>) -> (r: String)
    ensures
        r@ == lossy(bytes@),
        (forall|i: int| 0 <= i < bytes@.len() ==> bytes@[i] < 128) ==> r@ == bytes@.map_values(
            |b: u8| b as char,
        ),
{
    String::from_utf8_lossy(bytes).into_owned()
}

/// `s` without the leading `c`s.
pub open spec fn without_leading(s: Seq<char>, c: char) -> Seq<char>
    decreases s.len(),
{
    if s.len() > 0 && s[0] == c {
        without_leading(s.drop_first(), c)
    } else {
        s
    }
}

/// Drops every leading `c`.
pub fn trim_leading(text: &str, c: char) -> (r: String)
    ensures
        r@ == without_leading(text@, c),
{
    let chars = chars_of(text);
    let n: usize = chars.len();
    let mut i: usize = 0;
    assert(chars@.skip(0) =~= chars@);
    while i < n && chars[i] == c
        invariant
            i <= n == chars@.len(),
            chars@ == text@,
            without_leading(text@, c) == without_leading(chars@.skip(i as int), c),
        decreases n - i,
    {
        assert(chars@.skip(i as int).drop_first() =~= chars@.skip(i + 1));
        i += 1;
    }
    let out = string_of(&chars, i, n);
    assert(out@ =~= chars@.skip(i as int));
    out
}

/// `s` without the suffixes `p` at its end.
pub open spec fn without_trailing(s: Seq<char>, p: Seq<char>) -> Seq<char>
    decreases s.len(),
{
    if p.len() > 0 && ends(s, p) {
        without_trailing(s.take(s.len() - p.len()), p)
    } else {
        s
    }
}

/// Drops every suffix `p` at the end.
pub fn trim_trailing(text: &str, suffix: &str) -> (r: String)
    ensures
        r@ == without_trailing(text@, suffix@),
{
    let chars = chars_of(text);
    let tail = chars_of(suffix);
    let k: usize = tail.len();
    let mut n: usize = chars.len();
    assert(chars@.take(n as int) =~= chars@);
    if k == 0 {
        return copy(text);
    }
    while n >= k && stands_in(&chars, &tail, n - k)
        invariant
            n <= chars@.len(),
            k == tail@.len(),
            k > 0,
            chars@ == text@,
            tail@ == suffix@,
            without_trailing(text@, suffix@) == without_trailing(
                chars@.take(n as int),
                suffix@,
            ),
        decreases n,
    {
        proof {
            let now = chars@.take(n as int);
            assert(now.skip(n - k) =~= chars@.subrange(n - k, n as int));
            assert(now.take(n - k) =~= chars@.take(n - k));
        }
        n -= k;
    }
    proof {
        let now = chars@.take(n as int);
        if n >= k {
            assert(now.skip(n - k) =~= chars@.subrange(n - k, n as int));
        }
    }
    let out = string_of(&chars, 0, n);
    assert(out@ =~= chars@.take(n as int));
    out
}

/// Whether the pattern stands at a position of the text.
fn stands_in(chars: &Vec<char>, pattern: &Vec<char>, at: usize) -> (r: bool)
    requires
        at + pattern@.len() <= chars@.len(),
    ensures
        r == (chars@.subrange(at as int, at + pattern@.len()) == pattern@),
{
    let n: usize = chars.len();
    let mut i: usize = 0;
    while i < pattern.len()
        invariant
            i <= pattern@.len(),
            at + pattern@.len() <= n == chars@.len(),
            forall|j: int| 0 <= j < i ==> chars@[at + j] == pattern@[j],
        decreases pattern@.len() - i,
    {
        if chars[at + i] != pattern[i] {
            assert(chars@.subrange(at as int, at + pattern@.len())[i as int] != pattern@[i as int]);
            return false;
        }
        i += 1;
    }
    assert(chars@.subrange(at as int, at + pattern@.len()) =~= pattern@);
    true
}

/// What stands before the first of two characters.
pub open spec fn head_before(s: Seq<char>, a: char, b: char) -> Seq<char>
    decreases s.len(),
{
    if s.len() == 0 || s[0] == a || s[0] == b {
        Seq::empty()
    } else {
        seq![s[0]] + head_before(s.drop_first(), a, b)
    }
}

/// The part of a text before the first of two characters.
pub fn take_before(text: &str, a: char, b: char) -> (r: String)
    ensures
        r@ == head_before(text@, a, b),
{
    let chars = chars_of(text);
    let n: usize = chars.len();
    let mut out = String::new();
    let mut i: usize = 0;
    assert(chars@.skip(0) =~= chars@);
    assert(out@ + head_before(text@, a, b) =~= head_before(text@, a, b));
    while i < n && chars[i] != a && chars[i] != b
        invariant
            i <= n == chars@.len(),
            chars@ == text@,
            head_before(text@, a, b) == out@ + head_before(chars@.skip(i as int), a, b),
        decreases n - i,
    {
        let ghost before = out@;
        assert(chars@.skip(i as int)[0] == chars@[i as int]);
        assert(chars@.skip(i as int).drop_first() =~= chars@.skip(i + 1));
        out.push(chars[i]);
        assert(out@ + head_before(chars@.skip(i + 1), a, b) =~= before + (seq![chars@[i as int]]
            + head_before(chars@.skip(i + 1), a, b)));
        i += 1;
    }
    proof {
        if i < n {
            assert(chars@.skip(i as int)[0] == chars@[i as int]);
        }
        assert(out@ + head_before(chars@.skip(i as int), a, b) =~= out@);
    }
    out
}

/// Whether a list holds a text.
pub fn holds(list: &Vec<String>, item: &str) -> (r: bool)
    ensures
        r == views(list@).contains(item@),
{
    let ghost all = views(list@);
    let mut i: usize = 0;
    while i < list.len()
        invariant
            i <= list@.len(),
            all == views(list@),
            forall|k: int| 0 <= k < i ==> all[k] != item@,
        decreases list@.len() - i,
    {
        assert(all[i as int] == list@[i as int]@);
        if same(list[i].as_str(), item) {
            return true;
        }
        i += 1;
    }
    false
}

/// What stands before the first of two characters is all of it up to there.
pub proof fn heads_end_at_the_mark(head: Seq<char>, rest: Seq<char>, a: char, b: char)
    requires
        forall|i: int| 0 <= i < head.len() ==> head[i] != a && head[i] != b,
        rest.len() == 0 || rest[0] == a || rest[0] == b,
    ensures
        head_before(head + rest, a, b) == head,
    decreases head.len(),
{
    let s = head + rest;
    if head.len() > 0 {
        assert(s.drop_first() =~= head.drop_first() + rest);
        heads_end_at_the_mark(head.drop_first(), rest, a, b);
        assert(seq![s[0]] + head.drop_first() =~= head);
    } else {
        assert(head_before(s, a, b) =~= head);
    }
}

/// A cut at the last mark gives the two sides of it.
pub proof fn cuts_at_the_last_mark(left: Seq<char>, right: Seq<char>, c: char)
    requires
        !right.contains(c),
    ensures
        cut_last(left.push(c) + right, c) == Some((left, right)),
{
    let s = left.push(c) + right;
    lemma_last_at(s, c);
    assert(s[left.len() as int] == c);
    assert forall|j: int| left.len() < j < s.len() implies s[j] != c by {
        assert(right.contains(right[j - left.len() - 1]));
    }
    assert(s.take(left.len() as int) =~= left);
    assert(s.skip((left.len() + 1) as int) =~= right);
}

/// A cut at the first mark gives the two sides of it; without a mark there is
/// none.
pub proof fn cuts_at_the_first_mark(left: Seq<char>, right: Seq<char>, c: char)
    requires
        !left.contains(c),
    ensures
        cut_first(left.push(c) + right, c) == Some((left, right)),
        cut_first(left, c) is None,
        cut_last(left, c) is None,
{
    let s = left.push(c) + right;
    lemma_first_at(s, c);
    lemma_first_at(left, c);
    lemma_last_at(left, c);
    assert(s[left.len() as int] == c);
    assert forall|j: int| 0 <= j < left.len() implies s[j] != c && left[j] != c by {
        assert(left.contains(left[j]));
    }
    assert(s.take(left.len() as int) =~= left);
    assert(s.skip((left.len() + 1) as int) =~= right);
}

proof fn lemma_digit(d: int)
    requires
        0 <= d < 16,
    ensures
        digit_value(digit_char(d)) == d,
        digit_char(d) != '+',
        digit_char(d) != '-',
        digit_char(d) != '.',
        !is_white(digit_char(d)),
        d < 10 ==> is_digit(digit_char(d)),
{
    assert(d == 0 || d == 1 || d == 2 || d == 3 || d == 4 || d == 5 || d == 6 || d == 7 || d == 8
        || d == 9 || d == 10 || d == 11 || d == 12 || d == 13 || d == 14 || d == 15);
}

/// Written digits denote the number they were written for.
pub proof fn digits_denote_their_number(n: nat, base: nat)
    requires
        base == 10 || base == 16,
    ensures
        digits(n, base).len() > 0,
        in_base(digits(n, base), base as int),
        number_of(digits(n, base), base as int) == n,
        base == 10 ==> all_digits(digits(n, base)),
        forall|i: int|
            0 <= i < digits(n, base).len() ==> {
                let c = #[trigger] digits(n, base)[i];
                c != '+' && c != '-' && c != '.' && !is_white(c)
            },
    decreases n,
{
    let all = digits(n, base);
    if n < base {
        lemma_digit(n as int);
        assert(all.drop_last() =~= Seq::<char>::empty());
        assert(number_of(all.drop_last(), base as int) == 0);
    } else {
        assert(n / base < n) by (nonlinear_arith)
            requires
                n >= base,
                base >= 2,
        ;
        digits_denote_their_number(n / base, base);
        lemma_digit((n % base) as int);
        let head = digits(n / base, base);
        assert(all.drop_last() =~= head);
        assert forall|i: int| 0 <= i < all.len() implies {
            let c = #[trigger] all[i];
            c != '+' && c != '-' && c != '.' && !is_white(c) && digit_value(c) < base && (base == 10
                ==> is_digit(c))
        } by {
            if i < head.len() {
                assert(all[i] == head[i]);
            }
        }
        assert((n / base) * base + n % base == n) by (nonlinear_arith)
            requires
                base >= 2,
        ;
    }
}

/// A number that is written in decimal digits is read back.
pub proof fn decimals_are_read_back(n: nat, max: int)
    requires
        n <= max,
    ensures
        unsigned_literal(decimal(n), 10, max) == Some(n as int),
        unsigned_literal(digits(n, 16), 16, max) == Some(n as int),
{
    digits_denote_their_number(n, 10);
    digits_denote_their_number(n, 16);
    assert(decimal(n)[0] != '+');
    assert(digits(n, 16)[0] != '+');
}

/// Whitespace around a text is dropped, and nothing else: what lies between two
/// characters that are no whitespace stays.
pub proof fn trimming_drops_the_whitespace(before: Seq<char>, s: Seq<char>, behind: Seq<char>)
    requires
        forall|i: int| 0 <= i < before.len() ==> is_white(before[i]),
        forall|i: int| 0 <= i < behind.len() ==> is_white(behind[i]),
        s.len() == 0 || !is_white(s[0]) && !is_white(s.last()),
    ensures
        trimmed(before + s + behind) == s,
{
    lemma_trim_start(before, s + behind);
    assert(before + s + behind =~= before + (s + behind));
    if s.len() > 0 {
        assert(trimmed_start(s + behind) == s + behind);
        lemma_trim_end(s, behind);
    } else {
        assert(s + behind =~= behind + Seq::<char>::empty());
        lemma_trim_start(behind, Seq::empty());
        assert(trimmed_end(Seq::<char>::empty()) =~= s);
    }
}

proof fn lemma_trim_start(before: Seq<char>, s: Seq<char>)
    requires
        forall|i: int| 0 <= i < before.len() ==> is_white(before[i]),
    ensures
        trimmed_start(before + s) == trimmed_start(s),
    decreases before.len(),
{
    if before.len() > 0 {
        assert((before + s).drop_first() =~= before.drop_first() + s);
        assert((before + s)[0] == before[0]);
        lemma_trim_start(before.drop_first(), s);
    } else {
        assert(before + s =~= s);
    }
}

proof fn lemma_trim_end(s: Seq<char>, behind: Seq<char>)
    requires
        forall|i: int| 0 <= i < behind.len() ==> is_white(behind[i]),
        s.len() > 0,
        !is_white(s.last()),
    ensures
        trimmed_end(s + behind) == s,
    decreases behind.len(),
{
    if behind.len() > 0 {
        assert((s + behind).drop_last() =~= s + behind.drop_last());
        assert((s + behind).last() == behind.last());
        lemma_trim_end(s, behind.drop_last());
    } else {
        assert(s + behind =~= s);
    }
}

/// What is left has no whitespace at its ends, and it is a part of the text with
/// nothing but whitespace around it.
pub proof fn trimmed_texts_are_bare(s: Seq<char>)
    ensures
        trimmed(s).len() > 0 ==> !is_white(trimmed(s)[0]) && !is_white(trimmed(s).last()),
        trimmed(trimmed(s)) == trimmed(s),
{
    lemma_start_bare(s);
    lemma_end_bare(trimmed_start(s));
    let t = trimmed(s);
    if t.len() > 0 {
        assert(t[0] == trimmed_start(s)[0]);
        assert(trimmed_start(t) == t);
        assert(trimmed_end(t) == t);
    }
}

proof fn lemma_start_bare(s: Seq<char>)
    ensures
        trimmed_start(s).len() > 0 ==> !is_white(trimmed_start(s)[0]),
    decreases s.len(),
{
    if s.len() > 0 && is_white(s[0]) {
        lemma_start_bare(s.drop_first());
    }
}

proof fn lemma_end_bare(s: Seq<char>)
    ensures
        trimmed_end(s).len() <= s.len(),
        trimmed_end(s) == s.take(trimmed_end(s).len() as int),
        trimmed_end(s).len() > 0 ==> !is_white(trimmed_end(s).last()),
    decreases s.len(),
{
    if s.len() > 0 && is_white(s.last()) {
        lemma_end_bare(s.drop_last());
        let n = trimmed_end(s).len() as int;
        assert(s.drop_last().take(n) =~= s.take(n));
    } else {
        assert(s.take(s.len() as int) =~= s);
    }
}

/// The pieces stand between the marks: without a mark there is one, and a mark
/// ends the first.
pub proof fn pieces_stand_between_the_marks(piece: Seq<char>, rest: Seq<char>, c: char)
    requires
        !piece.contains(c),
    ensures
        pieces(piece, c) == seq![piece],
        pieces(piece.push(c) + rest, c) == seq![piece] + pieces(rest, c),
{
    let s = piece.push(c) + rest;
    lemma_first_at(piece, c);
    lemma_first_at(s, c);
    assert(s[piece.len() as int] == c);
    assert forall|j: int| 0 <= j < piece.len() implies s[j] != c && piece[j] != c by {
        assert(piece.contains(piece[j]));
    }
    assert(s.take(piece.len() as int) =~= piece);
    assert(s.skip((piece.len() + 1) as int) =~= rest);
}

/// Words are separated by whitespace: a run without any is a word, and
/// whitespace in front does not matter.
pub proof fn words_stand_between_whitespace(word: Seq<char>, rest: Seq<char>, w: char)
    requires
        word.len() > 0,
        forall|i: int| 0 <= i < word.len() ==> !is_white(word[i]),
        rest.len() == 0 || is_white(rest[0]),
        is_white(w),
    ensures
        words(word + rest) == seq![word] + words(rest),
        words(seq![w] + rest) == words(rest),
        words(Seq::empty()).len() == 0,
{
    let s = word + rest;
    lemma_run(word, rest);
    assert(s[0] == word[0]);
    assert(s.take(word.len() as int) =~= word);
    assert(s.skip(word.len() as int) =~= rest);
    assert((seq![w] + rest).drop_first() =~= rest);
}

proof fn lemma_run(word: Seq<char>, rest: Seq<char>)
    requires
        forall|i: int| 0 <= i < word.len() ==> !is_white(word[i]),
        rest.len() == 0 || is_white(rest[0]),
    ensures
        word_len(word + rest) == word.len(),
    decreases word.len(),
{
    if word.len() > 0 {
        assert((word + rest).drop_first() =~= word.drop_first() + rest);
        lemma_run(word.drop_first(), rest);
    } else {
        assert(word + rest =~= rest);
    }
}

/// A line ends at a line feed; a carriage return in front of it does not count,
/// and the last line needs no line feed.
pub proof fn lines_end_at_line_feeds(line: Seq<char>, rest: Seq<char>)
    requires
        !line.contains('\n'),
        line.len() == 0 || line.last() != '\r',
    ensures
        line_list(line.push('\n') + rest) == seq![line] + line_list(rest),
        line_list(line.push('\r').push('\n') + rest) == seq![line] + line_list(rest),
        line.len() > 0 ==> line_list(line) == seq![line],
        line_list(Seq::empty()).len() == 0,
{
    let s = line.push('\n') + rest;
    let r = line.push('\r').push('\n') + rest;
    lemma_first_at(line, '\n');
    lemma_first_at(s, '\n');
    lemma_first_at(r, '\n');
    assert forall|j: int| 0 <= j < line.len() implies s[j] != '\n' && r[j] != '\n' && line[j]
        != '\n' by {
        assert(line.contains(line[j]));
    }
    assert(s[line.len() as int] == '\n');
    assert(r[line.len() as int] == '\r');
    assert(r[(line.len() + 1) as int] == '\n');
    assert(s.take(line.len() as int) =~= line);
    assert(s.skip((line.len() + 1) as int) =~= rest);
    assert(r.take((line.len() + 1) as int) =~= line.push('\r'));
    assert(line.push('\r').drop_last() =~= line);
    assert(r.skip((line.len() + 2) as int) =~= rest);
}

/// A text with a prefix begins with it, and only then; the same at the end.
pub proof fn prefixes_and_suffixes(s: Seq<char>, p: Seq<char>)
    ensures
        begins(p + s, p),
        ends(s + p, p),
        begins(s, p) ==> s == p + s.skip(p.len() as int),
        ends(s, p) ==> s == s.take(s.len() - p.len()) + p,
{
    assert((p + s).take(p.len() as int) =~= p);
    assert((s + p).skip(s.len() as int) =~= p);
    if begins(s, p) {
        assert(s =~= p + s.skip(p.len() as int));
    }
    if ends(s, p) {
        assert(s =~= s.take(s.len() - p.len()) + p);
    }
}

/// A part of a text occurs in it, and what occurs is a part: the text is
/// something, the part and something.
pub proof fn parts_occur(a: Seq<char>, p: Seq<char>, b: Seq<char>, s: Seq<char>)
    ensures
        occurs(a + p + b, p),
        occurs(s, p) ==> exists|i: int|
            0 <= i <= s.len() - p.len() && s == #[trigger] s.take(i) + p + s.skip(
                (i + p.len()) as int,
            ),
{
    let all = a + p + b;
    assert(all.subrange(a.len() as int, (a.len() + p.len()) as int) =~= p);
    assert(stands_at(all, p, a.len() as int));
    if occurs(s, p) {
        let i = choose|i: int| stands_at(s, p, i);
        assert(s =~= s.take(i) + p + s.skip((i + p.len()) as int));
    }
}

/// Items are joined in order, with the separator between neighbours and nowhere
/// else.
pub proof fn joins_separate_neighbours(items: Seq<Seq<char>>, item: Seq<char>, sep: Seq<char>)
    ensures
        joined(Seq::empty(), sep).len() == 0,
        joined(seq![item], sep) == item,
        items.len() > 0 ==> joined(items.push(item), sep) == joined(items, sep) + sep + item,
{
    assert(items.push(item).drop_last() =~= items);
}

/// Leading marks are dropped, all of them and nothing else.
pub proof fn leading_marks_are_dropped(s: Seq<char>, c: char)
    ensures
        without_leading(seq![c] + s, c) == without_leading(s, c),
        s.len() == 0 || s[0] != c ==> without_leading(s, c) == s,
{
    assert((seq![c] + s).drop_first() =~= s);
}

/// Small letters differ from capitals in nothing else: letters keep their place,
/// and what is no capital stays.
pub proof fn small_letters_stay(s: Seq<char>, i: int)
    requires
        0 <= i < s.len(),
    ensures
        ascii_lower(s).len() == s.len(),
        'A' <= s[i] <= 'Z' ==> ascii_lower(s)[i] as int == s[i] as int + 32,
        !('A' <= s[i] <= 'Z') ==> ascii_lower(s)[i] == s[i],
{
}

/// What does not hold the pattern stays; the first occurrence is replaced and the
/// rest is treated in the same way.
pub proof fn replacing_goes_from_left_to_right(a: Seq<char>, p: Seq<char>, rest: Seq<char>, by: Seq<char>)
    requires
        p.len() > 0,
        find_at(a + p + rest, p, 0) == Some(a.len() as int),
    ensures
        replaced(a + p + rest, p, by) == a + by + replaced(rest, p, by),
{
    let s = a + p + rest;
    assert(s.take(a.len() as int) =~= a);
    assert(s.skip((a.len() + p.len()) as int) =~= rest);
}

/// A text without the pattern is not changed.
pub proof fn nothing_is_replaced_without_the_pattern(s: Seq<char>, p: Seq<char>, by: Seq<char>)
    requires
        !occurs(s, p),
    ensures
        replaced(s, p, by) == s,
{
    lemma_find_at(s, p, 0);
}

/// A sign in front of digits counts.
pub proof fn signs_count(n: nat)
    requires
        n <= i32::MAX,
    ensures
        signed_literal(decimal(n)) == Some(n as int),
        signed_literal(seq!['-'] + decimal(n)) == Some(-(n as int)),
{
    digits_denote_their_number(n, 10);
    decimals_are_read_back(n, i32::MAX as int);
    assert(decimal(n)[0] != '-');
    assert((seq!['-'] + decimal(n)).drop_first() =~= decimal(n));
}

/// What is longer than the limit is cut there and marked; what is not stays.
pub proof fn long_texts_are_cut(s: Seq<char>, max: nat)
    ensures
        s.len() <= max ==> shortened(s, max) == s,
        s.len() > max ==> shortened(s, max).len() == max + 1 && shortened(s, max).take(max as int)
            == s.take(max as int) && shortened(s, max).last() == '…',
{
    if s.len() > max {
        assert(shortened(s, max).take(max as int) =~= s.take(max as int));
    }
}

} // verus!
