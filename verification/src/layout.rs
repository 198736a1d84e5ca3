//! How the lines of the popup are laid out.
use crate::text;
use vstd::prelude::*;

verus! {

/// Characters available in one line of values.
pub const LEADER_WIDTH: usize = 50;

/// Digits to which a number is filled up with zeros.
pub const NUMBER_WIDTH: usize = 4;

/// Whether a character belongs to a number.
pub open spec fn in_number(c: char) -> bool {
    text::is_digit(c) || c == '.'
}

/// The length of the number at the beginning.
pub open spec fn number_len(s: Seq<char>) -> nat
    decreases s.len(),
{
    if s.len() == 0 || !in_number(s[0]) {
        0
    } else {
        1 + number_len(s.drop_first())
    }
}

/// So many zeros.
pub open spec fn zeros(count: int) -> Seq<char> {
    Seq::new(
        (if count > 0 {
            count
        } else {
            0
        }) as nat,
        |i: int| '0',
    )
}

/// The digits of a number before its first point.
pub open spec fn whole_part(number: Seq<char>) -> Seq<char> {
    match text::cut_first(number, '.') {
        Some((head, _)) => head,
        None => number,
    }
}

/// Whether digits and points make a number: there is at most one point.
pub open spec fn one_point(number: Seq<char>) -> bool {
    match text::cut_first(number, '.') {
        Some((_, tail)) => !tail.contains('.'),
        None => true,
    }
}

/// A number with its integer part filled up. What begins with a point stays as it
/// is, and so does what is longer than a number is wide and holds several points.
pub open spec fn filled(number: Seq<char>) -> Seq<char> {
    let head = whole_part(number);
    if head.len() > 0 && (one_point(number) || number.len() <= NUMBER_WIDTH) {
        zeros(NUMBER_WIDTH - head.len()) + number
    } else {
        number
    }
}

/// A text in which every number is filled up.
pub open spec fn padded(s: Seq<char>) -> Seq<char>
    decreases s.len(),
    via padded_decreases
{
    if s.len() == 0 {
        Seq::empty()
    } else if in_number(s[0]) {
        let n = number_len(s) as int;
        filled(s.take(n)) + padded(s.skip(n))
    } else {
        seq![s[0]] + padded(s.drop_first())
    }
}

#[via_fn]
proof fn padded_decreases(s: Seq<char>) {
    if s.len() > 0 && in_number(s[0]) {
        lemma_number_len(s);
    }
}

proof fn lemma_number_len(s: Seq<char>)
    ensures
        number_len(s) <= s.len(),
        s.len() > 0 && in_number(s[0]) ==> number_len(s) > 0,
        number_len(s) < s.len() ==> !in_number(s[number_len(s) as int]),
        forall|i: int| 0 <= i < number_len(s) ==> in_number(s[i]),
    decreases s.len(),
{
    if s.len() > 0 && in_number(s[0]) {
        lemma_number_len(s.drop_first());
        assert forall|i: int| 0 <= i < number_len(s) implies in_number(s[i]) by {
            if i > 0 {
                assert(s[i] == s.drop_first()[i - 1]);
            }
        }
    }
}

fn belongs(c: char) -> (r: bool)
    ensures
        r == in_number(c),
{
    text::digit(c) || c == '.'
}

fn fill(number: &str) -> (r: String)
    ensures
        r@ == filled(number@),
{
    let chars = text::chars_of(number);
    let (head, single) = match text::split_once(number, '.') {
        Some((head, tail)) => (head, !text::contains_char(tail.as_str(), '.')),
        None => (text::copy(number), true),
    };
    let width: usize = text::count(head.as_str());
    if width == 0 || !(single || chars.len() <= NUMBER_WIDTH) {
        return text::copy(number);
    }
    let mut out = String::new();
    let mut i: usize = width;
    assert(out@ =~= zeros(0));
    while i < NUMBER_WIDTH
        invariant
            0 < width <= i,
            i <= NUMBER_WIDTH || i == width,
            out@ == zeros(i - width),
        decreases NUMBER_WIDTH - i,
    {
        out.push('0');
        i += 1;
        assert(out@ =~= zeros(i - width));
    }
    assert(out@ =~= zeros(NUMBER_WIDTH - width));
    text::cat2(out.as_str(), number)
}

/// Pads the integer part of every number to four digits; a longer one stays as it
/// is.
pub fn pad_numbers(value: &str) -> (r: String)
    ensures
        r@ == padded(value@),
{
    let chars = text::chars_of(value);
    let n: usize = chars.len();
    let mut out = String::new();
    let mut i: usize = 0;
    assert(chars@.skip(0) =~= chars@);
    assert(out@ + padded(chars@) =~= padded(chars@));
    while i < n
        invariant
            i <= n == chars@.len(),
            chars@ == value@,
            padded(value@) == out@ + padded(chars@.skip(i as int)),
        decreases n - i,
    {
        let ghost rest = chars@.skip(i as int);
        let ghost before = out@;
        assert(rest[0] == chars@[i as int]);
        if belongs(chars[i]) {
            let start: usize = i;
            proof {
                lemma_number_len(rest);
            }
            while i < n && belongs(chars[i])
                invariant
                    start <= i <= n == chars@.len(),
                    rest == chars@.skip(start as int),
                    i - start <= number_len(rest),
                    number_len(rest) <= rest.len(),
                    number_len(rest) < rest.len() ==> !in_number(rest[number_len(rest) as int]),
                decreases n - i,
            {
                assert(rest[i - start] == chars@[i as int]);
                i += 1;
            }
            proof {
                if i - start < number_len(rest) {
                    assert(rest[i - start] == chars@[i as int]);
                }
                assert(i - start == number_len(rest));
                assert(chars@.subrange(start as int, i as int) =~= rest.take(i - start));
                assert(rest.skip(i - start) =~= chars@.skip(i as int));
            }
            let number = text::string_of(&chars, start, i);
            let number = fill(number.as_str());
            out = text::cat2(out.as_str(), number.as_str());
            assert(before + (number@ + padded(chars@.skip(i as int))) =~= out@ + padded(
                chars@.skip(i as int),
            ));
        } else {
            out.push(chars[i]);
            i += 1;
            assert(rest.drop_first() =~= chars@.skip(i as int));
            assert(before + (seq![rest[0]] + padded(chars@.skip(i as int))) =~= out@ + padded(
                chars@.skip(i as int),
            ));
        }
    }
    assert(chars@.skip(n as int) =~= Seq::empty());
    assert(out@ + padded(Seq::empty()) =~= out@);
    out
}

/// Whether a character is a digit other than zero.
pub open spec fn counts(c: char) -> bool {
    '1' <= c && c <= '9'
}

/// Where the part begins that stands out: at the first digit other than zero.
pub open spec fn highlight_at(s: Seq<char>) -> nat
    decreases s.len(),
{
    if s.len() == 0 || counts(s[0]) {
        0
    } else {
        1 + highlight_at(s.drop_first())
    }
}

proof fn lemma_highlight(s: Seq<char>)
    ensures
        highlight_at(s) <= s.len(),
        highlight_at(s) < s.len() ==> counts(s[highlight_at(s) as int]),
        forall|i: int| 0 <= i < highlight_at(s) ==> !counts(s[i]),
    decreases s.len(),
{
    if s.len() > 0 && !counts(s[0]) {
        lemma_highlight(s.drop_first());
        assert forall|i: int| 0 <= i < highlight_at(s) implies !counts(s[i]) by {
            if i > 0 {
                assert(s[i] == s.drop_first()[i - 1]);
            }
        }
    }
}

/// Splits a padded value into the dim padding and the highlighted part.
///
/// Everything from the first digit greater than zero onwards is highlighted.
pub fn split_padding(value: &str) -> (r: (String, String))
    ensures
        r.0@ == value@.take(highlight_at(value@) as int),
        r.1@ == value@.skip(highlight_at(value@) as int),
{
    let chars = text::chars_of(value);
    let n: usize = chars.len();
    let mut i: usize = 0;
    assert(chars@.skip(0) =~= chars@);
    while i < n && !('1' <= chars[i] && chars[i] <= '9')
        invariant
            i <= n == chars@.len(),
            chars@ == value@,
            highlight_at(value@) == i + highlight_at(chars@.skip(i as int)),
        decreases n - i,
    {
        assert(chars@.skip(i as int)[0] == chars@[i as int]);
        assert(chars@.skip(i as int).drop_first() =~= chars@.skip(i + 1));
        i += 1;
    }
    proof {
        if i < n {
            assert(chars@.skip(i as int)[0] == chars@[i as int]);
        }
    }
    (text::take_chars(value, i), text::skip_chars(value, i))
}

/// One line: a label on the left, a value on the right, and a leader between
/// them.
#[derive(Debug)]
pub struct LeaderRow {
    pub label: String,
    /// The number of leader characters.
    pub dots: usize,
    /// The dim zeros in front of the value.
    pub padding: String,
    /// The part of the value that stands out.
    pub value: String,
}

/// A line as characters.
pub struct Line {
    pub label: Seq<char>,
    pub dots: int,
    pub padding: Seq<char>,
    pub value: Seq<char>,
}

impl View for LeaderRow {
    type V = Line;

    open spec fn view(&self) -> Line {
        Line {
            label: self.label@,
            dots: self.dots as int,
            padding: self.padding@,
            value: self.value@,
        }
    }
}

/// The longest label next to a value.
pub open spec fn label_room(right: int) -> int {
    let budget = LEADER_WIDTH - (right + 2);
    if budget > 6 {
        budget
    } else {
        6
    }
}

/// A label that is too long is cut, and the cut is marked.
pub open spec fn fitted(label: Seq<char>, room: int) -> Seq<char> {
    if label.len() > room {
        label.take(room - 1).push('…')
    } else {
        label
    }
}

/// The line for a label and a value: the leader fills it, but there is always a
/// bit of it.
pub open spec fn line_of(label: Seq<char>, value: Seq<char>) -> Line {
    let full = padded(value);
    let left = fitted(label, label_room(full.len() as int));
    let rest = LEADER_WIDTH - (left.len() + full.len() + 1);
    Line {
        label: left,
        dots: if rest > 1 {
            rest
        } else {
            1
        },
        padding: full.take(highlight_at(full) as int),
        value: full.skip(highlight_at(full) as int),
    }
}

/// Label on the left, value on the right, leader between them.
///
/// Numbers are padded with zeros to a fixed width; the padding is kept apart, so
/// the value itself stands out.
pub fn leader_row(label: &str, value: &str) -> (r: LeaderRow)
    ensures
        r@ == line_of(label@, value@),
{
    let full = pad_numbers(value);
    let right: usize = text::count(full.as_str());
    let room: usize = if right < LEADER_WIDTH - 8 {
        LEADER_WIDTH - 2 - right
    } else {
        6
    };
    let label = if text::count(label) > room {
        let head = text::take_chars(label, room - 1);
        let mut cut = head;
        cut.push('…');
        cut
    } else {
        text::copy(label)
    };
    let left: usize = text::count(label.as_str());
    let dots: usize = if right < LEADER_WIDTH && left + right + 1 < LEADER_WIDTH {
        LEADER_WIDTH - (left + right + 1)
    } else {
        1
    };
    let (padding, value) = split_padding(full.as_str());
    LeaderRow { label, dots, padding, value }
}

/// The parts of a split value are the value; nothing but zeros counts in the
/// first one, and the second one, if there is any, begins with a digit that
/// does.
pub proof fn splitting_keeps_the_value(value: Seq<char>)
    ensures
        ({
            let k = highlight_at(value) as int;
            &&& value.take(k) + value.skip(k) == value
            &&& forall|i: int| 0 <= i < k ==> !counts(#[trigger] value.take(k)[i])
            &&& value.skip(k).len() > 0 ==> counts(value.skip(k)[0])
        }),
{
    lemma_highlight(value);
    let k = highlight_at(value) as int;
    assert(value.take(k) + value.skip(k) =~= value);
}

/// The values end flush at the right edge: every line in which label and value
/// leave room for a leader is equally long.
pub proof fn values_end_flush(label: Seq<char>, value: Seq<char>)
    requires
        line_of(label, value).label.len() + padded(value).len() + 2 <= LEADER_WIDTH,
    ensures
        ({
            let line = line_of(label, value);
            line.label.len() + line.dots + line.padding.len() + line.value.len() == LEADER_WIDTH
                - 1
        }),
{
    lemma_highlight(padded(value));
}

/// A label is never longer than the room next to its value, and one that fits
/// stays as it is. A value that leaves room for a short label leaves room for a
/// leader as well, however long the label is.
pub proof fn labels_fit(label: Seq<char>, value: Seq<char>)
    ensures
        ({
            let line = line_of(label, value);
            let room = label_room(padded(value).len() as int);
            &&& line.label.len() <= room
            &&& label.len() <= room ==> line.label == label
            &&& padded(value).len() + 8 <= LEADER_WIDTH ==> line.label.len() + padded(value).len()
                + 2 <= LEADER_WIDTH
        }),
{
}

// ---------------------------------------------------------------- names

/// A name without the words that say little.
pub open spec fn plain_name(name: Seq<char>) -> Seq<char> {
    let a = text::replaced(name, " Processor"@, Seq::empty());
    let b = text::replaced(a, " CPU"@, Seq::empty());
    let c = text::replaced(b, "-Core"@, Seq::empty());
    let d = text::replaced(c, "(R)"@, Seq::empty());
    let e = text::replaced(d, "(TM)"@, Seq::empty());
    text::trimmed(e)
}

/// A text without a prefix, where it has it.
pub open spec fn bare(s: Seq<char>, prefix: Seq<char>) -> Seq<char> {
    if text::begins(s, prefix) {
        s.skip(prefix.len() as int)
    } else {
        s
    }
}

/// A name without a number at its end.
pub open spec fn uncounted(s: Seq<char>) -> Seq<char> {
    match text::cut_last(s, ' ') {
        Some((head, tail)) => if tail.len() > 0 && text::all_digits(tail) {
            head
        } else {
            s
        },
        None => s,
    }
}

/// Two cores of one family share its name.
pub open spec fn merged(s: Seq<char>) -> Seq<char> {
    match text::find_at(s, " + "@, 0) {
        Some(i) => {
            let first = s.take(i);
            let second = s.skip(i + " + "@.len());
            if text::begins(first, "Cortex-"@) && text::begins(second, "Cortex-"@) {
                "Cortex-"@ + first.skip("Cortex-"@.len() as int) + "/"@ + second.skip(
                    "Cortex-"@.len() as int,
                )
            } else {
                s
            }
        },
        None => s,
    }
}

/// A processor name, short enough to stand next to its load.
pub open spec fn compact_cpu(name: Seq<char>) -> Seq<char> {
    merged(uncounted(bare(plain_name(name), "ARM "@)))
}

fn without(name: &str, word: &str) -> (r: String)
    requires
        word@.len() > 0,
    ensures
        r@ == text::replaced(name@, word@, Seq::empty()),
{
    let nothing = String::new();
    assert(nothing@ =~= Seq::empty());
    text::replace(name, word, nothing.as_str())
}

fn plain(name: &str) -> (r: String)
    ensures
        r@ == plain_name(name@),
{
    proof {
        reveal_strlit(" Processor");
        reveal_strlit(" CPU");
        reveal_strlit("-Core");
        reveal_strlit("(R)");
        reveal_strlit("(TM)");
    }
    let a = without(name, " Processor");
    let b = without(a.as_str(), " CPU");
    let c = without(b.as_str(), "-Core");
    let d = without(c.as_str(), "(R)");
    let e = without(d.as_str(), "(TM)");
    text::trim(e.as_str())
}

fn uncount(label: &str) -> (r: String)
    ensures
        r@ == uncounted(label@),
{
    if let Some((head, tail)) = text::rsplit_once(label, ' ') {
        if !text::is_empty(tail.as_str()) && text::only_digits(tail.as_str()) {
            return head;
        }
    }
    text::copy(label)
}

fn merge(label: &str) -> (r: String)
    ensures
        r@ == merged(label@),
{
    if let Some(i) = text::find(label, " + ") {
        let n: usize = text::count(label);
        proof {
            reveal_strlit(" + ");
            assert(i + 3 <= n);
        }
        let first = text::take_chars(label, i);
        let second = text::skip_chars(label, i + 3);
        if let Some(a) = text::strip_prefix(first.as_str(), "Cortex-") {
            if let Some(b) = text::strip_prefix(second.as_str(), "Cortex-") {
                return text::cat4("Cortex-", a.as_str(), "/", b.as_str());
            }
        }
    }
    text::copy(label)
}

/// Shortens a processor name so that it fits next to its values.
pub fn compact_cpu_label(name: &str) -> (r: String)
    ensures
        r@ == compact_cpu(name@),
{
    let label = plain(name);
    let label = match text::strip_prefix(label.as_str(), "ARM ") {
        Some(rest) => rest,
        None => label,
    };
    let label = uncount(label.as_str());
    merge(label.as_str())
}

/// The whole part of a number is filled up to four digits with zeros; what is
/// wider, and what is no number, stays as it is.
pub proof fn numbers_are_filled_up(head: Seq<char>, tail: Seq<char>, rest: Seq<char>)
    requires
        0 < head.len() <= 4,
        text::all_digits(head),
        text::all_digits(tail),
        rest.len() == 0 || !in_number(rest[0]),
    ensures
        padded(head + rest) == zeros(4 - head.len()) + head + padded(rest),
        padded(head.push('.') + tail + rest) == zeros(4 - head.len()) + (head.push('.') + tail)
            + padded(rest),
{
    assert forall|i: int| 0 <= i < head.len() implies in_number(head[i]) && head[i] != '.' by {
        assert(text::is_digit(head[i]));
    }
    assert forall|i: int| 0 <= i < tail.len() implies in_number(tail[i]) && tail[i] != '.' by {
        assert(text::is_digit(tail[i]));
    }
    let number = head.push('.') + tail;
    assert(forall|i: int| 0 <= i < number.len() ==> in_number(number[i]));
    lemma_number_run(head, rest);
    lemma_number_run(number, rest);
    assert((head + rest).take(head.len() as int) =~= head);
    assert((head + rest).skip(head.len() as int) =~= rest);
    assert((number + rest).take(number.len() as int) =~= number);
    assert((number + rest).skip(number.len() as int) =~= rest);
    assert((head + rest)[0] == head[0]);
    assert((number + rest)[0] == head[0]);
    text::cuts_at_the_first_mark(head, tail, '.');
    assert(filled(head) == zeros(4 - head.len()) + head);
    assert(filled(number) == zeros(4 - head.len()) + number);
}

proof fn lemma_number_run(number: Seq<char>, rest: Seq<char>)
    requires
        forall|i: int| 0 <= i < number.len() ==> in_number(number[i]),
        rest.len() == 0 || !in_number(rest[0]),
    ensures
        number_len(number + rest) == number.len(),
    decreases number.len(),
{
    let s = number + rest;
    if number.len() > 0 {
        assert(s.drop_first() =~= number.drop_first() + rest);
        lemma_number_run(number.drop_first(), rest);
    } else {
        assert(s =~= rest);
    }
}

/// What is no digit and no point stays where it is.
pub proof fn other_characters_stay(c: char, rest: Seq<char>)
    requires
        !('0' <= c <= '9'),
        c != '.',
    ensures
        padded(seq![c] + rest) == seq![c] + padded(rest),
        padded(Seq::empty()).len() == 0,
{
    let s = seq![c] + rest;
    assert(s.drop_first() =~= rest);
    assert(s[0] == c);
}

/// Zeros are zeros, and as many as asked for.
pub proof fn zeros_are_zeros(count: int, i: int)
    ensures
        count >= 0 ==> zeros(count).len() == count,
        count < 0 ==> zeros(count).len() == 0,
        0 <= i < count ==> zeros(count)[i] == '0',
{
}

/// The part that stands out begins with the first digit other than zero; what is
/// in front of it holds none.
pub proof fn values_stand_out(s: Seq<char>)
    ensures
        highlight_at(s) <= s.len(),
        highlight_at(s) < s.len() ==> '1' <= s[highlight_at(s) as int] <= '9',
        forall|i: int| 0 <= i < highlight_at(s) ==> !('1' <= #[trigger] s[i] <= '9'),
    decreases s.len(),
{
    if s.len() > 0 && !counts(s[0]) {
        values_stand_out(s.drop_first());
        assert forall|i: int| 0 <= i < highlight_at(s) implies !('1' <= #[trigger] s[i] <= '9') by {
            if i > 0 {
                assert(s[i] == s.drop_first()[i - 1]);
            }
        }
        if highlight_at(s) < s.len() {
            assert(s[highlight_at(s) as int] == s.drop_first()[highlight_at(s) - 1]);
        }
    }
}

/// A line is fifty characters wide: label, leader, a space and value, as long as
/// they fit; the leader never vanishes.
pub proof fn lines_are_fifty_wide(label: Seq<char>, value: Seq<char>)
    ensures
        ({
            let line = line_of(label, value);
            let full = padded(value);
            &&& line.dots >= 1
            &&& line.padding + line.value == full
            &&& full.len() <= 42 ==> line.label.len() + line.dots + full.len() + 1 == 50
            &&& label.len() + full.len() + 2 <= 50 ==> line.label == label
        }),
{
    let full = padded(value);
    values_stand_out(full);
    let line = line_of(label, value);
    assert(line.padding + line.value =~= full);
}

/// A processor name loses the words that say little and a number at its end.
pub proof fn short_names_say_enough(name: Seq<char>, count: Seq<char>)
    requires
        count.len() > 0,
        text::all_digits(count),
    ensures
        uncounted(name.push(' ') + count) == name,
        bare("ARM "@ + name, "ARM "@) == name,
        !text::begins(name, "ARM "@) ==> bare(name, "ARM "@) == name,
        !name.contains(' ') ==> uncounted(name) == name,
{
    reveal_strlit("ARM ");
    assert forall|i: int| 0 <= i < count.len() implies count[i] != ' ' by {
        assert(text::is_digit(count[i]));
    }
    text::cuts_at_the_last_mark(name, count, ' ');
    assert(("ARM "@ + name).take(4) =~= "ARM "@);
    assert(("ARM "@ + name).skip(4) =~= name);
    if !name.contains(' ') {
        text::cuts_at_the_first_mark(name, count, ' ');
    }
}

/// Two cores of one family share its name; a name without two cores stays.
pub proof fn families_share_their_name(a: Seq<char>, b: Seq<char>, name: Seq<char>)
    requires
        text::find_at("Cortex-"@ + a + " + "@ + ("Cortex-"@ + b), " + "@, 0) == Some(
            (7 + a.len()) as int,
        ),
        !text::occurs(name, " + "@),
    ensures
        merged("Cortex-"@ + a + " + "@ + ("Cortex-"@ + b)) == "Cortex-"@ + a + "/"@ + b,
        merged(name) == name,
{
    reveal_strlit("Cortex-");
    reveal_strlit(" + ");
    let first = "Cortex-"@ + a;
    let second = "Cortex-"@ + b;
    let s = first + " + "@ + second;
    assert(s.take((7 + a.len()) as int) =~= first);
    assert(s.skip((7 + a.len() + 3) as int) =~= second);
    assert(first.take(7) =~= "Cortex-"@);
    assert(second.take(7) =~= "Cortex-"@);
    assert(first.skip(7) =~= a);
    assert(second.skip(7) =~= b);
    text::lemma_find_at(name, " + "@, 0);
}

/// A name without any of the words that say little, and without whitespace around
/// it, stays as it is.
pub proof fn telling_names_stay(name: Seq<char>)
    requires
        !text::occurs(name, " Processor"@),
        !text::occurs(name, " CPU"@),
        !text::occurs(name, "-Core"@),
        !text::occurs(name, "(R)"@),
        !text::occurs(name, "(TM)"@),
    ensures
        plain_name(name) == text::trimmed(name),
{
    text::nothing_is_replaced_without_the_pattern(name, " Processor"@, Seq::empty());
    text::nothing_is_replaced_without_the_pattern(name, " CPU"@, Seq::empty());
    text::nothing_is_replaced_without_the_pattern(name, "-Core"@, Seq::empty());
    text::nothing_is_replaced_without_the_pattern(name, "(R)"@, Seq::empty());
    text::nothing_is_replaced_without_the_pattern(name, "(TM)"@, Seq::empty());
}

} // verus!
