//! The cache file through which several panel instances share one fetch, and
//! the decision which of them fetches.
use crate::ieee;
use crate::json;
use crate::json::{Doc, Json, Number};
use crate::link;
use crate::spark;
use crate::text;
use vstd::prelude::*;

verus! {

/// What a node's entry in the cache says: its document, or why there is none.
pub open spec fn entry_in(doc: Doc) -> Result<Seq<char>, Seq<char>> {
    match json::text_of(json::member(doc, "document"@)) {
        Some(s) => Ok(s),
        None => Err(json::text_or(json::member(doc, "error"@), "nicht erreichbar"@)),
    }
}

/// The time stamp and the entries of a cache document.
pub open spec fn cache_in(doc: Doc) -> Option<(u64, Seq<Result<Seq<char>, Seq<char>>>)> {
    match (json::double_in(json::member(doc, "ts"@)), json::items_of(
        json::member(doc, "documents"@),
    )) {
        (Some(ts), Some(items)) => Some((ts, items.map_values(|d: Doc| entry_in(d)))),
        _ => None,
    }
}

/// Entries as characters.
pub open spec fn entries(list: Seq<Result<String, String>>) -> Seq<Result<Seq<char>, Seq<char>>> {
    list.map_values(|r: Result<String, String>| link::result_of(r))
}

fn read_entry(value: &Json) -> (r: Result<String, String>)
    ensures
        link::result_of(r) == entry_in(value@),
{
    match json::as_text(value.get("document")) {
        Some(s) => Ok(text::copy(s.as_str())),
        None => Err(json::member_text(value, "error", "nicht erreichbar")),
    }
}

/// Reads the document of the cache.
pub fn read_cache_document(value: &Json) -> (r: Option<(u64, Vec<Result<String, String>>)>)
    ensures
        r matches Some(c) ==> cache_in(value@) == Some((c.0, entries(c.1@))),
        r is None ==> cache_in(value@) is None,
{
    let ts: u64 = match json::as_double(value.get("ts")) {
        Some(bits) => bits,
        None => return None,
    };
    let items = match json::as_array(value.get("documents")) {
        Some(items) => items,
        None => return None,
    };
    let ghost all = json::docs(items@).map_values(|d: Doc| entry_in(d));
    let mut out: Vec<Result<String, String>> = Vec::new();
    let mut i: usize = 0;
    while i < items.len()
        invariant
            i <= items@.len(),
            all == json::docs(items@).map_values(|d: Doc| entry_in(d)),
            entries(out@) == all.take(i as int),
        decreases items@.len() - i,
    {
        let ghost before = out@;
        let entry = read_entry(&items[i]);
        out.push(entry);
        assert(entries(out@) =~= entries(before).push(link::result_of(entry)));
        assert(all[i as int] == entry_in(items@[i as int]@));
        i += 1;
    }
    assert(entries(out@) =~= all);
    Some((ts, out))
}

/// Reads the text of the cache file.
pub fn read_cache(cache: &str) -> (r: Option<(u64, Vec<Result<String, String>>)>)
    ensures
        ({
            let told = match json::json_text(cache@) {
                Some(doc) => cache_in(doc),
                None => None,
            };
            &&& r matches Some(c) ==> told == Some((c.0, entries(c.1@)))
            &&& r is None ==> told is None
        }),
{
    match json::parse(cache) {
        Ok(value) => read_cache_document(&value),
        Err(_) => None,
    }
}

/// The entry of a node in the cache.
pub open spec fn entry_doc(
    target: Seq<char>,
    entry: Option<Result<Seq<char>, Seq<char>>>,
) -> Doc {
    match entry {
        Some(Ok(document)) => Doc::Object(
            seq![("document"@, Doc::Text(document)), ("target"@, Doc::Text(target))],
        ),
        Some(Err(error)) => Doc::Object(
            seq![("error"@, Doc::Text(error)), ("target"@, Doc::Text(target))],
        ),
        None => Doc::Object(seq![("target"@, Doc::Text(target))]),
    }
}

/// The cache document: one entry for each target.
pub open spec fn cache_doc(
    ts: u64,
    targets: Seq<Seq<char>>,
    list: Seq<Result<Seq<char>, Seq<char>>>,
) -> Doc {
    Doc::Object(
        seq![
            (
                "documents"@,
                Doc::Array(
                    Seq::new(
                        targets.len(),
                        |i: int|
                            entry_doc(
                                targets[i],
                                if i < list.len() {
                                    Some(list[i])
                                } else {
                                    None
                                },
                            ),
                    ),
                ),
            ),
            ("ts"@, Doc::Number(Number::Double(ts))),
        ],
    )
}

fn entry_value(target: &str, entry: Option<&Result<String, String>>) -> (r: Json)
    ensures
        r@ == entry_doc(
            target@,
            match entry {
                Some(e) => Some(link::result_of(*e)),
                None => None,
            },
        ),
{
    let m = json::no_members();
    let m = match entry {
        Some(Ok(document)) => json::with(m, "document", Json::Text(text::copy(document.as_str()))),
        Some(Err(error)) => json::with(m, "error", Json::Text(text::copy(error.as_str()))),
        None => m,
    };
    let m = json::with(m, "target", Json::Text(text::copy(target)));
    let r = json::object(m);
    proof {
        let told = entry_doc(
            target@,
            match entry {
                Some(e) => Some(link::result_of(*e)),
                None => None,
            },
        );
        assert(r@->Object_0 =~= told->Object_0);
    }
    r
}

/// The value that is written to the cache file; `ts` is the time as
/// double-precision bits.
pub fn cache_value(
    ts: u64,
    targets: &Vec<String>,
    documents: &Vec<Result<String, String>>,
) -> (r: Json)
    ensures
        r@ == cache_doc(ts, text::views(targets@), entries(documents@)),
{
    let ghost told = cache_doc(ts, text::views(targets@), entries(documents@));
    let ghost list = told->Object_0[0].1->Array_0;
    let mut items: Vec<Json> = Vec::new();
    let mut i: usize = 0;
    while i < targets.len()
        invariant
            i <= targets@.len(),
            told == cache_doc(ts, text::views(targets@), entries(documents@)),
            list == told->Object_0[0].1->Array_0,
            json::docs(items@) == list.take(i as int),
        decreases targets@.len() - i,
    {
        let ghost before = items@;
        let entry = if i < documents.len() {
            Some(&documents[i])
        } else {
            None
        };
        let item = entry_value(targets[i].as_str(), entry);
        items.push(item);
        assert(list[i as int] == item@);
        assert(json::docs(items@) =~= json::docs(before).push(item@));
        assert(json::docs(items@) =~= list.take(i + 1));
        i += 1;
    }
    assert(json::docs(items@) =~= list);
    let m = json::no_members();
    let m = json::with(m, "documents", json::array(items));
    let m = json::with(m, "ts", Json::Number(Number::Double(ts)));
    let r = json::object(m);
    assert(r@->Object_0 =~= told->Object_0);
    r
}

/// What one instance writes is what the others read: the same time stamp and,
/// for each target, the same document or error.
pub proof fn the_cache_gives_back_what_was_written(
    ts: u64,
    targets: Seq<Seq<char>>,
    list: Seq<Result<Seq<char>, Seq<char>>>,
)
    requires
        targets.len() == list.len(),
    ensures
        cache_in(cache_doc(ts, targets, list)) == Some((ts, list)),
{
    reveal_strlit("documents");
    reveal_strlit("ts");
    reveal_strlit("document");
    reveal_strlit("target");
    reveal_strlit("error");
    let doc = cache_doc(ts, targets, list);
    let m = doc->Object_0;
    reveal_with_fuel(json::lookup, 3);
    assert("documents"@.len() == 9 && "ts"@.len() == 2);
    assert("document"@.len() == 8 && "target"@.len() == 6 && "error"@.len() == 5);
    assert(m[0].0 == "documents"@ && m[1].0 == "ts"@);
    assert(m.drop_first()[0] == m[1]);
    let items = m[0].1->Array_0;
    let back = items.map_values(|d: Doc| entry_in(d));
    assert forall|i: int| 0 <= i < list.len() implies #[trigger] back[i] == list[i] by {
        let d = entry_doc(targets[i], Some(list[i]));
        assert(items[i] == d);
        let e = d->Object_0;
        assert(e.drop_first()[0] == e[1]);
        assert(e.drop_first().drop_first().len() == 0);
    }
    assert(back =~= list);
}

// ---------------------------------------------------------------- who fetches

/// What a refresh does first.
#[derive(Debug, Clone, Copy, PartialEq, Eq, Structural)]
pub enum Plan {
    /// The cached documents are fresh enough.
    UseCache,
    /// Fetch at once.
    Fetch,
    /// Fetch if the refresh lock can be taken, else use what is cached.
    TryLock,
}

/// Without the shared cache every instance fetches; with it a fresh cache is
/// used, and otherwise the instance that wins the lock fetches.
pub open spec fn planned(shared_cache: bool, cached_age: Option<u64>) -> Plan {
    if !shared_cache {
        Plan::Fetch
    } else {
        match cached_age {
            Some(age) => if ieee::below_double(age, spark::CACHE_TTL_S) {
                Plan::UseCache
            } else {
                Plan::TryLock
            },
            None => Plan::TryLock,
        }
    }
}

/// Decides on a refresh; `cached_age` is the age of the cache in seconds as
/// double-precision bits, where there is a cache.
pub fn plan(shared_cache: bool, cached_age: Option<u64>) -> (r: Plan)
    ensures
        r == planned(shared_cache, cached_age),
{
    if !shared_cache {
        return Plan::Fetch;
    }
    match cached_age {
        Some(age) => {
            if ieee::lt_double(age, spark::CACHE_TTL_S) {
                Plan::UseCache
            } else {
                Plan::TryLock
            }
        },
        None => Plan::TryLock,
    }
}

/// Whether a lock that is held may be taken over: it must be known to be older
/// than the limit.
pub fn lock_is_stale(age_s: Option<u64>) -> (r: bool)
    ensures
        r == (age_s matches Some(age) && age > spark::LOCK_STALE_S),
{
    match age_s {
        Some(age) => age > spark::LOCK_STALE_S,
        None => false,
    }
}

/// A cache has a time and one entry for each item: the document where there is
/// one, else why there is none.
pub proof fn cached_entries_are_read(doc: Doc, items: Seq<Doc>, ts: u64, i: int)
    requires
        json::member(doc, "ts"@) == Some(Doc::Number(Number::Double(ts))),
        json::member(doc, "documents"@) == Some(Doc::Array(items)),
        0 <= i < items.len(),
    ensures
        cache_in(doc) matches Some((at, list)) && {
            &&& at == ts
            &&& list.len() == items.len()
            &&& json::member(items[i], "document"@) matches Some(Doc::Text(s)) ==> list[i] == Ok::<
                Seq<char>,
                Seq<char>,
            >(s)
            &&& json::member(items[i], "document"@) is None ==> (list[i] matches Err(e) && (
            json::member(items[i], "error"@) matches Some(Doc::Text(s)) ==> e == s))
        },
{
}

/// A cache without a time or without entries is none.
pub proof fn incomplete_caches_are_none(doc: Doc)
    ensures
        json::member(doc, "ts"@) is None || json::member(doc, "documents"@) is None ==> cache_in(
            doc,
        ) is None,
{
}

/// Without the shared cache the instance fetches. With it, cached documents are
/// used while they are younger than a second and a half, and otherwise the
/// instance that gets the lock fetches.
pub proof fn young_caches_are_used(age: u64)
    ensures
        planned(false, Some(age)) == Plan::Fetch,
        planned(false, None) == Plan::Fetch,
        planned(true, None) == Plan::TryLock,
        ieee::below_double(age, 0x3ff8_0000_0000_0000) ==> planned(true, Some(age))
            == Plan::UseCache,
        !ieee::below_double(age, 0x3ff8_0000_0000_0000) ==> planned(true, Some(age))
            == Plan::TryLock,
{
}

} // verus!
