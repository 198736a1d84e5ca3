//! JSON documents as plain values.
//!
//! `Json` is the value the program works with; `Doc` is what it means. Reading
//! and writing text is done by serde_json, everything else is stated over
//! `Doc`.
use crate::ieee;
use crate::text;
use serde_json::Value;
use vstd::prelude::*;

verus! {

/// A JSON number: a natural number, a negative integer, or the bit pattern of
/// any other double-precision value.
#[derive(Clone, Copy, Debug, PartialEq, Eq, Structural)]
pub enum Number {
    Natural(u64),
    Negative(i64),
    Double(u64),
}

/// A JSON value.
#[derive(Debug)]
pub enum Json {
    Null,
    Bool(bool),
    Number(Number),
    Text(String),
    Array(Vec<Json>),
    Object(Vec<(String, Json)>),
}

/// The meaning of a JSON value.
pub enum Doc {
    Null,
    Bool(bool),
    Number(Number),
    Text(Seq<char>),
    Array(Seq<Doc>),
    Object(Seq<(Seq<char>, Doc)>),
}

impl Json {
    pub open spec fn view(&self) -> Doc
        decreases self,
    {
        match *self {
            Json::Null => Doc::Null,
            Json::Bool(b) => Doc::Bool(b),
            Json::Number(n) => Doc::Number(n),
            Json::Text(s) => Doc::Text(s@),
            Json::Array(items) => Doc::Array(
                Seq::new(
                    items@.len(),
                    |i: int|
                        if 0 <= i < items@.len() {
                            items@[i].view()
                        } else {
                            Doc::Null
                        },
                ),
            ),
            Json::Object(members) => Doc::Object(
                Seq::new(
                    members@.len(),
                    |i: int|
                        if 0 <= i < members@.len() {
                            (members@[i].0@, members@[i].1.view())
                        } else {
                            (Seq::empty(), Doc::Null)
                        },
                ),
            ),
        }
    }
}

/// The documents of a list of values.
pub open spec fn docs(items: Seq<Json>) -> Seq<Doc> {
    items.map_values(|j: Json| j@)
}

/// The members of an object as names and documents.
pub open spec fn pairs(members: Seq<(String, Json)>) -> Seq<(Seq<char>, Doc)> {
    members.map_values(|m: (String, Json)| (m.0@, m.1@))
}

/// An array's document lists the documents of its items.
pub proof fn lemma_array(items: Vec<Json>)
    ensures
        Json::Array(items)@ == Doc::Array(docs(items@)),
{
    let left = Json::Array(items)@->Array_0;
    assert(left =~= docs(items@));
}

/// An object's document lists the documents of its members.
pub proof fn lemma_object(members: Vec<(String, Json)>)
    ensures
        Json::Object(members)@ == Doc::Object(pairs(members@)),
{
    let left = Json::Object(members)@->Object_0;
    assert(left =~= pairs(members@));
}

// ---------------------------------------------------------------- reading

/// What serde_json reads from a text, or nothing where the text is no JSON.
pub uninterp spec fn json_text(text: Seq<char>) -> Option<Doc>;

/// What serde_json writes for a document.
pub uninterp spec fn json_rendered(doc: Doc) -> Seq<char>;

#[verifier::external_type_specification]
#[verifier::external_body]
pub struct ExValue(serde_json::Value);

/// Turns a `serde_json::Value` into a `Json`, variant by variant. A number is
/// `Natural` where `as_u64` gives a value, else `Negative` where `as_i64` does,
/// else the bits of `as_f64`. Object members keep the order in which the map
/// hands them out.
#[verifier::external_body]
fn from_value(value: Value) -> (r: Json) {
    match value {
        Value::Null => Json::Null,
        Value::Bool(b) => Json::Bool(b),
        Value::Number(n) => Json::Number(match (n.as_u64(), n.as_i64()) {
            (Some(u), _) => Number::Natural(u),
            (None, Some(i)) => Number::Negative(i),
            _ => Number::Double(n.as_f64().map(|x| x.to_bits()).unwrap_or(0)),
        }),
        Value::String(s) => Json::Text(s),
        Value::Array(v) => Json::Array(v.into_iter().map(from_value).collect()),
        Value::Object(m) => Json::Object(
            m.into_iter().map(|(k, v)| (k, from_value(v))).collect()
        ),
    }
}

/// What serde_json says about a text that is no JSON.
pub uninterp spec fn json_complaint(text: Seq<char>) -> Seq<char>;

/// `serde_json::from_str`: what it reads, and what its error says, depends on
/// the characters alone, and is named here rather than described.
#[verifier::external_body]
pub(crate) fn parse(text: &str) -> (r: Result<Json, String>)
    ensures
        r matches Ok(j) ==> json_text(text@) == Some(j@),
        r matches Err(e) ==> json_text(text@) is None && e@ == json_complaint(text@),
{
    serde_json::from_str::<Value>(text).map(from_value).map_err(|e| e.to_string())
}

/// What serde_json reads from bytes, or nothing where they are no JSON.
pub uninterp spec fn json_bytes(bytes: Seq<u8>) -> Option<Doc>;

/// `serde_json::from_slice`: what it reads depends on the bytes alone and is
/// named here. Bytes that encode a text are read as the text is.
#[verifier::external_body]
pub(crate) fn parse_bytes(bytes: &Vec<u8>) -> (r: Option<Json>)
    ensures
        r matches Some(j) ==> json_bytes(bytes@) == Some(j@),
        r is None ==> json_bytes(bytes@) is None,
        forall|text: Seq<char>| #[trigger]
            vstd::utf8::encode_utf8(text) == bytes@ ==> doc_if(r) == json_text(text),
{
    serde_json::from_slice::<Value>(bytes).ok().map(from_value)
}

/// What an optional value means.
pub open spec fn doc_if(value: Option<Json>) -> Option<Doc> {
    match value {
        Some(j) => Some(j@),
        None => None,
    }
}

/// How deeply arrays and objects are nested.
pub open spec fn depth(doc: Doc) -> nat
    decreases doc,
{
    match doc {
        Doc::Array(items) => 1 + deepest(items),
        Doc::Object(members) => 1 + deepest_member(members),
        _ => 0,
    }
}

pub open spec fn deepest(items: Seq<Doc>) -> nat
    decreases items,
{
    if items.len() == 0 {
        0
    } else {
        let a = depth(items[0]);
        let b = deepest(items.subrange(1, items.len() as int));
        if a > b {
            a
        } else {
            b
        }
    }
}

pub open spec fn deepest_member(members: Seq<(Seq<char>, Doc)>) -> nat
    decreases members,
{
    if members.len() == 0 {
        0
    } else {
        let a = depth(members[0].1);
        let b = deepest_member(members.subrange(1, members.len() as int));
        if a > b {
            a
        } else {
            b
        }
    }
}

/// Whether every number in the document is an integer.
pub open spec fn whole(doc: Doc) -> bool
    decreases doc,
{
    match doc {
        Doc::Number(n) => !(n is Double),
        Doc::Array(items) => forall|i: int| 0 <= i < items.len() ==> whole(#[trigger] items[i]),
        Doc::Object(members) => forall|i: int|
            0 <= i < members.len() ==> whole((#[trigger] members[i]).1),
        _ => true,
    }
}

/// Whether the document is in the form in which it is read back: negative
/// numbers are negative, and the names of each object increase.
pub open spec fn canonical(doc: Doc) -> bool
    decreases doc,
{
    match doc {
        Doc::Number(Number::Negative(n)) => n < 0,
        Doc::Array(items) => forall|i: int| 0 <= i < items.len() ==> canonical(#[trigger] items[i]),
        Doc::Object(members) => {
            &&& forall|i: int| 0 <= i < members.len() ==> canonical((#[trigger] members[i]).1)
            &&& rising(members)
        },
        _ => true,
    }
}

/// Whether the names of the members increase strictly.
pub open spec fn rising(members: Seq<(Seq<char>, Doc)>) -> bool {
    forall|i: int, j: int|
        0 <= i < j < members.len() ==> text::before(
            (#[trigger] members[i]).0,
            (#[trigger] members[j]).0,
        )
}

/// Turns a `Json` into a `serde_json::Value`, variant by variant. A `Double`
/// never arrives here: both callers require integers.
#[verifier::external_body]
fn to_value(value: &Json) -> (r: Value) {
    match value {
        Json::Null | Json::Number(Number::Double(_)) => Value::Null,
        Json::Bool(b) => Value::Bool(*b),
        Json::Number(Number::Natural(u)) => Value::from(*u),
        Json::Number(Number::Negative(i)) => Value::from(*i),
        Json::Text(s) => Value::String(s.clone()),
        Json::Array(v) => Value::Array(v.iter().map(to_value).collect()),
        Json::Object(m) => {
            Value::Object(m.iter().map(|(k, v)| (k.clone(), to_value(v))).collect())
        },
    }
}

/// `to_string` of a `serde_json::Value`: compact JSON. What it writes depends
/// on the document alone and is named here. The document is nested no deeper than
/// the reader allows; one in canonical form is read back as it was.
#[verifier::external_body]
pub(crate) fn render(value: &Json) -> (r: String)
    requires
        whole(value@),
        depth(value@) < 128,
    ensures
        r@ == json_rendered(value@),
        canonical(value@) ==> json_text(r@) == Some(value@),
{
    to_value(value).to_string()
}

/// What `serde_json::to_string_pretty` writes for a document.
pub uninterp spec fn json_pretty(doc: Doc) -> Seq<char>;

/// `serde_json::to_string_pretty`: JSON over several lines. What it writes
/// depends on the document alone and is named here; it is read back as `render`
/// states, also with a line feed behind it.
#[verifier::external_body]
pub(crate) fn render_pretty(value: &Json) -> (r: String)
    requires
        whole(value@),
        depth(value@) < 128,
    ensures
        r@ == json_pretty(value@),
        canonical(value@) ==> json_text(r@) == Some(value@) && json_text(r@.push('\n')) == Some(
            value@,
        ),
{
    serde_json::to_string_pretty(&to_value(value)).unwrap_or_default()
}

// ---------------------------------------------------------------- access

/// The document of the first member with this name.
pub open spec fn lookup(members: Seq<(Seq<char>, Doc)>, key: Seq<char>) -> Option<Doc>
    decreases members.len(),
{
    if members.len() == 0 {
        None
    } else if members[0].0 == key {
        Some(members[0].1)
    } else {
        lookup(members.drop_first(), key)
    }
}

/// The document of a member; nothing where the document is no object.
pub open spec fn member(doc: Doc, key: Seq<char>) -> Option<Doc> {
    match doc {
        Doc::Object(members) => lookup(members, key),
        _ => None,
    }
}

/// The member of a member.
pub open spec fn member_at(doc: Doc, section: Seq<char>, key: Seq<char>) -> Option<Doc> {
    match member(doc, section) {
        Some(inner) => member(inner, key),
        None => None,
    }
}

pub open spec fn bool_of(doc: Option<Doc>) -> Option<bool> {
    match doc {
        Some(Doc::Bool(b)) => Some(b),
        _ => None,
    }
}

pub open spec fn text_of(doc: Option<Doc>) -> Option<Seq<char>> {
    match doc {
        Some(Doc::Text(s)) => Some(s),
        _ => None,
    }
}

pub open spec fn natural_of(doc: Option<Doc>) -> Option<u64> {
    match doc {
        Some(Doc::Number(Number::Natural(u))) => Some(u),
        _ => None,
    }
}

/// The integer a document holds, where it fits in 64 bits with a sign.
pub open spec fn integer_of(doc: Option<Doc>) -> Option<i64> {
    match doc {
        Some(Doc::Number(Number::Natural(u))) => if u <= i64::MAX {
            Some(u as i64)
        } else {
            None
        },
        Some(Doc::Number(Number::Negative(i))) => Some(i),
        _ => None,
    }
}

/// The bits of a number as a double-precision value.
pub open spec fn double_bits(n: Number) -> u64 {
    match n {
        Number::Natural(u) => ieee::double_of(u as nat),
        Number::Negative(i) => if i < 0 {
            (0x8000_0000_0000_0000 + ieee::double_of((-i) as nat)) as u64
        } else {
            ieee::double_of(i as nat)
        },
        Number::Double(bits) => bits,
    }
}

pub open spec fn double_in(doc: Option<Doc>) -> Option<u64> {
    match doc {
        Some(Doc::Number(n)) => Some(double_bits(n)),
        _ => None,
    }
}

pub open spec fn items_of(doc: Option<Doc>) -> Option<Seq<Doc>> {
    match doc {
        Some(Doc::Array(items)) => Some(items),
        _ => None,
    }
}

pub open spec fn members_of(doc: Option<Doc>) -> Option<Seq<(Seq<char>, Doc)>> {
    match doc {
        Some(Doc::Object(members)) => Some(members),
        _ => None,
    }
}

/// What an optional value means.
pub open spec fn doc_of(value: Option<&Json>) -> Option<Doc> {
    match value {
        Some(j) => Some(j@),
        None => None,
    }
}

/// The text or nothing, by its characters.
pub open spec fn chars_in(value: Option<&String>) -> Option<Seq<char>> {
    match value {
        Some(s) => Some(s@),
        None => None,
    }
}

impl Json {
    /// The value of a member.
    pub fn get(&self, key: &str) -> (r: Option<&Json>)
        ensures
            doc_of(r) == member(self@, key@),
    {
        match self {
            Json::Object(members) => {
                proof {
                    lemma_object(*members);
                }
                let n: usize = members.len();
                let mut i: usize = 0;
                let ghost all = pairs(members@);
                assert(all.skip(0) =~= all);
                while i < n
                    invariant
                        i <= n == members@.len(),
                        all == pairs(members@),
                        member(self@, key@) == lookup(all.skip(i as int), key@),
                    decreases n - i,
                {
                    assert(all.skip(i as int)[0] == (members@[i as int].0@, members@[i as int].1@));
                    if text::same(members[i].0.as_str(), key) {
                        return Some(&members[i].1);
                    }
                    assert(all.skip(i as int).drop_first() =~= all.skip(i + 1));
                    i += 1;
                }
                None
            },
            _ => None,
        }
    }
}

/// The boolean a value holds.
pub fn as_bool(value: Option<&Json>) -> (r: Option<bool>)
    ensures
        r == bool_of(doc_of(value)),
{
    match value {
        Some(Json::Bool(b)) => Some(*b),
        _ => None,
    }
}

/// The text a value holds.
pub fn as_text(value: Option<&Json>) -> (r: Option<&String>)
    ensures
        chars_in(r) == text_of(doc_of(value)),
{
    match value {
        Some(Json::Text(s)) => Some(s),
        _ => None,
    }
}

/// The natural number a value holds.
pub fn as_natural(value: Option<&Json>) -> (r: Option<u64>)
    ensures
        r == natural_of(doc_of(value)),
{
    match value {
        Some(Json::Number(Number::Natural(u))) => Some(*u),
        _ => None,
    }
}

/// The integer a value holds.
pub fn as_integer(value: Option<&Json>) -> (r: Option<i64>)
    ensures
        r == integer_of(doc_of(value)),
{
    match value {
        Some(Json::Number(Number::Natural(u))) => {
            if *u <= 0x7fff_ffff_ffff_ffff {
                Some(*u as i64)
            } else {
                None
            }
        },
        Some(Json::Number(Number::Negative(i))) => Some(*i),
        _ => None,
    }
}

/// The bits of the number a value holds, as a double-precision value.
pub fn as_double(value: Option<&Json>) -> (r: Option<u64>)
    ensures
        r == double_in(doc_of(value)),
{
    match value {
        Some(Json::Number(n)) => Some(bits_of(*n)),
        _ => None,
    }
}

fn bits_of(n: Number) -> (r: u64)
    ensures
        r == double_bits(n),
{
    match n {
        Number::Natural(u) => ieee::double_of_unsigned(u),
        Number::Negative(i) => {
            if i < 0 {
                let magnitude: u64 = if i == i64::MIN {
                    0x8000_0000_0000_0000
                } else {
                    (0 - i) as u64
                };
                let bits: u64 = ieee::double_of_unsigned(magnitude);
                0x8000_0000_0000_0000 + bits
            } else {
                ieee::double_of_unsigned(i as u64)
            }
        },
        Number::Double(bits) => bits,
    }
}

/// The items of an array value.
pub fn as_array(value: Option<&Json>) -> (r: Option<&Vec<Json>>)
    ensures
        r matches Some(v) ==> items_of(doc_of(value)) == Some(docs(v@)),
        r is None ==> items_of(doc_of(value)) is None,
{
    match value {
        Some(Json::Array(items)) => {
            proof {
                lemma_array(*items);
            }
            Some(items)
        },
        _ => None,
    }
}

/// The members of an object value.
pub fn as_object(value: Option<&Json>) -> (r: Option<&Vec<(String, Json)>>)
    ensures
        r matches Some(v) ==> members_of(doc_of(value)) == Some(pairs(v@)),
        r is None ==> members_of(doc_of(value)) is None,
{
    match value {
        Some(Json::Object(members)) => {
            proof {
                lemma_object(*members);
            }
            Some(members)
        },
        _ => None,
    }
}

/// The texts among a list of documents, in order.
pub open spec fn texts(items: Seq<Doc>) -> Seq<Seq<char>>
    decreases items.len(),
{
    if items.len() == 0 {
        Seq::empty()
    } else {
        let rest = texts(items.drop_first());
        match items[0] {
            Doc::Text(s) => seq![s] + rest,
            _ => rest,
        }
    }
}

/// Copies the texts out of a list of values.
pub fn text_items(items: &Vec<Json>) -> (r: Vec<String>)
    ensures
        text::views(r@) == texts(docs(items@)),
{
    let n: usize = items.len();
    let mut out: Vec<String> = Vec::new();
    let mut i: usize = 0;
    let ghost all = docs(items@);
    assert(all.skip(0) =~= all);
    assert(text::views(out@) + texts(all) =~= texts(all));
    while i < n
        invariant
            i <= n == items@.len(),
            all == docs(items@),
            texts(all) == text::views(out@) + texts(all.skip(i as int)),
        decreases n - i,
    {
        let ghost before = out@;
        let ghost tail = all.skip(i as int);
        assert(tail.drop_first() =~= all.skip(i + 1));
        assert(tail[0] == items@[i as int]@);
        if let Json::Text(s) = &items[i] {
            out.push(text::copy(s.as_str()));
            assert(text::views(out@) =~= text::views(before) + seq![s@]);
            assert(text::views(before) + (seq![s@] + texts(all.skip(i + 1))) =~= text::views(out@)
                + texts(all.skip(i + 1)));
        }
        i += 1;
    }
    assert(all.skip(n as int) =~= Seq::empty());
    assert(text::views(out@) + texts(all.skip(n as int)) =~= text::views(out@));
    out
}

/// The text a document holds, or the text given otherwise.
pub open spec fn text_or(doc: Option<Doc>, otherwise: Seq<char>) -> Seq<char> {
    match text_of(doc) {
        Some(s) => s,
        None => otherwise,
    }
}

/// Whether a document is `true`.
pub open spec fn holds(doc: Option<Doc>) -> bool {
    bool_of(doc) == Some(true)
}

/// A copy of a member's text, or of the text given otherwise.
pub fn member_text(value: &Json, key: &str, otherwise: &str) -> (r: String)
    ensures
        r@ == text_or(member(value@, key@), otherwise@),
{
    match as_text(value.get(key)) {
        Some(s) => text::copy(s.as_str()),
        None => text::copy(otherwise),
    }
}

/// Whether a member is `true`.
pub fn member_holds(value: &Json, key: &str) -> (r: bool)
    ensures
        r == holds(member(value@, key@)),
{
    match as_bool(value.get(key)) {
        Some(b) => b,
        None => false,
    }
}

/// The natural number a document holds, or zero.
pub open spec fn natural_or_zero(doc: Option<Doc>) -> u64 {
    match natural_of(doc) {
        Some(u) => u,
        None => 0,
    }
}

/// A member's natural number, or zero.
pub fn member_natural(value: &Json, key: &str) -> (r: u64)
    ensures
        r == natural_or_zero(member(value@, key@)),
{
    match as_natural(value.get(key)) {
        Some(u) => u,
        None => 0,
    }
}

/// Builds an object from one more member.
pub fn with(members: Vec<(String, Json)>, key: &str, value: Json) -> (r: Vec<(String, Json)>)
    ensures
        pairs(r@) == pairs(members@).push((key@, value@)),
{
    let ghost before = pairs(members@);
    let mut out = members;
    out.push((text::copy(key), value));
    assert(pairs(out@) =~= before.push((key@, value@)));
    out
}

/// An object with the given members.
pub fn object(members: Vec<(String, Json)>) -> (r: Json)
    ensures
        r@ == Doc::Object(pairs(members@)),
{
    proof {
        lemma_object(members);
    }
    Json::Object(members)
}

/// An array of the given items.
pub fn array(items: Vec<Json>) -> (r: Json)
    ensures
        r@ == Doc::Array(docs(items@)),
{
    proof {
        lemma_array(items);
    }
    Json::Array(items)
}

/// An array of texts.
pub open spec fn text_array(list: Seq<Seq<char>>) -> Doc {
    Doc::Array(list.map_values(|s: Seq<char>| Doc::Text(s)))
}

pub fn array_of_texts(list: &Vec<String>) -> (r: Json)
    ensures
        r@ == text_array(text::views(list@)),
{
    let mut items: Vec<Json> = Vec::new();
    let mut i: usize = 0;
    while i < list.len()
        invariant
            i <= list@.len(),
            items@.len() == i,
            forall|j: int| 0 <= j < i ==> (#[trigger] items@[j])@ == Doc::Text(list@[j]@),
        decreases list@.len() - i,
    {
        items.push(Json::Text(text::copy(list[i].as_str())));
        i += 1;
    }
    assert(docs(items@) =~= text::views(list@).map_values(|s: Seq<char>| Doc::Text(s)));
    array(items)
}

/// An integer as a JSON number.
pub open spec fn integer(n: int) -> Number {
    if n < 0 {
        Number::Negative(n as i64)
    } else {
        Number::Natural(n as u64)
    }
}

pub fn number(n: i64) -> (r: Number)
    ensures
        r == integer(n as int),
{
    if n < 0 {
        Number::Negative(n)
    } else {
        Number::Natural(n as u64)
    }
}

/// No members yet.
pub fn no_members() -> (r: Vec<(String, Json)>)
    ensures
        pairs(r@) == Seq::<(Seq<char>, Doc)>::empty(),
{
    let r: Vec<(String, Json)> = Vec::new();
    assert(pairs(r@) =~= Seq::<(Seq<char>, Doc)>::empty());
    r
}

/// Whether the name of a member comes before the next one.
pub open spec fn rises_at(members: Seq<(Seq<char>, Doc)>, i: int) -> bool {
    text::before(members[i].0, members[i + 1].0)
}

/// An object whose names increase from one to the next.
pub proof fn lemma_rising(members: Seq<(Seq<char>, Doc)>)
    requires
        forall|i: int| 0 <= i < members.len() - 1 ==> #[trigger] rises_at(members, i),
    ensures
        rising(members),
{
    assert forall|i: int, j: int| 0 <= i < j < members.len() implies text::before(
        (#[trigger] members[i]).0,
        (#[trigger] members[j]).0,
    ) by {
        lemma_rises(members, i, j);
    }
}

proof fn lemma_rises(members: Seq<(Seq<char>, Doc)>, i: int, j: int)
    requires
        forall|i: int| 0 <= i < members.len() - 1 ==> #[trigger] rises_at(members, i),
        0 <= i < j < members.len(),
    ensures
        text::before(members[i].0, members[j].0),
    decreases j - i,
{
    assert(rises_at(members, i));
    if i + 1 < j {
        lemma_rises(members, i + 1, j);
        text::lemma_before_transitive(members[i].0, members[i + 1].0, members[j].0);
    }
}

/// The document of a fraction, given as double-precision bits: one that is not
/// finite cannot be written.
pub open spec fn fraction(bits: u64) -> Doc {
    if ieee::is_finite(bits) {
        Doc::Number(Number::Double(bits))
    } else {
        Doc::Null
    }
}

pub fn from_bits(bits: u64) -> (r: Json)
    ensures
        r@ == fraction(bits),
{
    if ieee::finite(bits) {
        Json::Number(Number::Double(bits))
    } else {
        Json::Null
    }
}

/// A text as a value.
pub fn words(s: &str) -> (r: Json)
    ensures
        r@ == Doc::Text(s@),
{
    Json::Text(text::copy(s))
}

/// In an object whose names increase, every member is found under its name.
pub proof fn lemma_lookup(members: Seq<(Seq<char>, Doc)>, i: int)
    requires
        rising(members),
        0 <= i < members.len(),
    ensures
        lookup(members, members[i].0) == Some(members[i].1),
    decreases members.len(),
{
    if i > 0 {
        text::lemma_before_total(members[0].0, members[i].0);
        text::lemma_before_total(members[0].0, members[0].0);
        assert(text::before(members[0].0, members[i].0));
        let rest = members.drop_first();
        assert forall|a: int, b: int| 0 <= a < b < rest.len() implies text::before(
            (#[trigger] rest[a]).0,
            (#[trigger] rest[b]).0,
        ) by {
            assert(rest[a] == members[a + 1] && rest[b] == members[b + 1]);
        }
        lemma_lookup(rest, i - 1);
        assert(rest[i - 1] == members[i]);
    }
}

/// An array is at most one level deeper than its items.
pub proof fn lemma_deepest(items: Seq<Doc>, k: nat)
    requires
        forall|i: int| 0 <= i < items.len() ==> depth(#[trigger] items[i]) <= k,
    ensures
        deepest(items) <= k,
    decreases items.len(),
{
    if items.len() > 0 {
        let rest = items.subrange(1, items.len() as int);
        assert forall|i: int| 0 <= i < rest.len() implies depth(#[trigger] rest[i]) <= k by {
            assert(rest[i] == items[i + 1]);
        }
        lemma_deepest(rest, k);
    }
}

/// An object is at most one level deeper than its members.
pub proof fn lemma_deepest_member(members: Seq<(Seq<char>, Doc)>, k: nat)
    requires
        forall|i: int| 0 <= i < members.len() ==> depth((#[trigger] members[i]).1) <= k,
    ensures
        deepest_member(members) <= k,
    decreases members.len(),
{
    if members.len() > 0 {
        let rest = members.subrange(1, members.len() as int);
        assert forall|i: int| 0 <= i < rest.len() implies depth((#[trigger] rest[i]).1) <= k by {
            assert(rest[i] == members[i + 1]);
        }
        lemma_deepest_member(rest, k);
    }
}

/// A list of texts is read back as it was, and is not nested.
pub proof fn lemma_text_array(list: Seq<Seq<char>>)
    ensures
        whole(text_array(list)),
        canonical(text_array(list)),
        depth(text_array(list)) <= 1,
        texts(text_array(list)->Array_0) == list,
    decreases list.len(),
{
    let items = text_array(list)->Array_0;
    assert forall|i: int| 0 <= i < items.len() implies whole(#[trigger] items[i]) && canonical(
        items[i],
    ) && depth(items[i]) == 0 by {
        assert(items[i] == Doc::Text(list[i]));
    }
    lemma_deepest(items, 0);
    if list.len() > 0 {
        lemma_text_array(list.drop_first());
        assert(text_array(list.drop_first())->Array_0 =~= items.drop_first());
        assert(seq![list[0]] + list.drop_first() =~= list);
    } else {
        assert(texts(items) =~= list);
    }
}

/// Whether a document is a text, a flag or an integer.
pub open spec fn flat(doc: Doc) -> bool {
    match doc {
        Doc::Text(_) => true,
        Doc::Bool(_) => true,
        Doc::Number(Number::Natural(_)) => true,
        Doc::Number(Number::Negative(n)) => n < 0,
        _ => false,
    }
}

/// An object of texts, flags and integers under increasing names is read back
/// as it was.
pub proof fn lemma_flat(members: Seq<(Seq<char>, Doc)>)
    requires
        rising(members),
        forall|i: int| 0 <= i < members.len() ==> flat((#[trigger] members[i]).1),
    ensures
        whole(Doc::Object(members)),
        canonical(Doc::Object(members)),
        depth(Doc::Object(members)) < 128,
{
    assert forall|i: int| 0 <= i < members.len() implies whole((#[trigger] members[i]).1)
        && canonical(members[i].1) && depth(members[i].1) == 0 by {
        assert(flat(members[i].1));
    }
    lemma_deepest_member(members, 0);
}

/// A member is the first one of its name, and there is none where no member has
/// the name.
pub proof fn members_are_found_by_name(members: Seq<(Seq<char>, Doc)>, key: Seq<char>, i: int)
    ensures
        0 <= i < members.len() && members[i].0 == key && (forall|j: int|
            0 <= j < i ==> (#[trigger] members[j]).0 != key) ==> member(Doc::Object(members), key)
            == Some(members[i].1),
        (forall|j: int| 0 <= j < members.len() ==> (#[trigger] members[j]).0 != key) ==> member(
            Doc::Object(members),
            key,
        ) is None,
    decreases members.len(),
{
    if members.len() > 0 {
        let rest = members.drop_first();
        members_are_found_by_name(rest, key, i - 1);
        assert(forall|j: int| 0 <= j < rest.len() ==> rest[j] == members[j + 1]);
        if 0 < i < members.len() && members[i].0 == key && (forall|j: int|
            0 <= j < i ==> (#[trigger] members[j]).0 != key) {
            assert(members[0].0 != key);
            assert forall|j: int| 0 <= j < i - 1 implies (#[trigger] rest[j]).0 != key by {
                assert(members[j + 1].0 != key);
            }
        }
        if forall|j: int| 0 <= j < members.len() ==> (#[trigger] members[j]).0 != key {
            assert(members[0].0 != key);
            assert forall|j: int| 0 <= j < rest.len() implies (#[trigger] rest[j]).0 != key by {
                assert(members[j + 1].0 != key);
            }
        }
    }
}

/// Values are read as what they are, and as nothing else.
pub proof fn values_are_read_as_they_are(doc: Doc, s: Seq<char>, b: bool, u: u64, i: i64)
    ensures
        text_of(Some(Doc::Text(s))) == Some(s),
        bool_of(Some(Doc::Bool(b))) == Some(b),
        natural_of(Some(Doc::Number(Number::Natural(u)))) == Some(u),
        integer_of(Some(Doc::Number(integer(i as int)))) == Some(i),
        u > i64::MAX ==> integer_of(Some(Doc::Number(Number::Natural(u)))) is None,
        text_of(None) is None && bool_of(None) is None && natural_of(None) is None,
        integer_of(None) is None && double_in(None) is None,
        items_of(None) is None && members_of(None) is None,
        !(doc is Text) ==> text_of(Some(doc)) is None,
        !(doc is Bool) ==> bool_of(Some(doc)) is None,
        !(doc is Number) ==> natural_of(Some(doc)) is None && integer_of(Some(doc)) is None
            && double_in(Some(doc)) is None,
        !(doc is Array) ==> items_of(Some(doc)) is None,
        !(doc is Object) ==> members_of(Some(doc)) is None,
        double_in(Some(Doc::Number(Number::Double(u)))) == Some(u),
        holds(Some(Doc::Bool(b))) == b,
        holds(None) == false,
        text_or(Some(Doc::Text(s)), Seq::empty()) == s,
        text_or(None, s) == s,
{
}

/// A member of a member is found step by step.
pub proof fn sections_hold_members(doc: Doc, inner: Doc, section: Seq<char>, key: Seq<char>)
    ensures
        member(doc, section) == Some(inner) ==> member_at(doc, section, key) == member(inner, key),
        member(doc, section) is None ==> member_at(doc, section, key) is None,
        !(doc is Object) ==> member(doc, key) is None,
{
}

/// The texts of a list are its texts in order; other items are left out.
pub proof fn texts_keep_their_order(items: Seq<Doc>, item: Doc)
    ensures
        texts(Seq::empty()).len() == 0,
        item matches Doc::Text(s) ==> texts(seq![item] + items) == seq![s] + texts(items),
        !(item is Text) ==> texts(seq![item] + items) == texts(items),
{
    assert((seq![item] + items).drop_first() =~= items);
}

/// A fraction is written as the number it is; what is infinite or no number at
/// all is written as nothing.
pub proof fn fractions_are_finite(bits: u64)
    ensures
        bits % 0x8000_0000_0000_0000 < 0x7ff0_0000_0000_0000 ==> fraction(bits) == Doc::Number(
            Number::Double(bits),
        ),
        bits % 0x8000_0000_0000_0000 >= 0x7ff0_0000_0000_0000 ==> fraction(bits) == Doc::Null,
{
}

} // verus!
