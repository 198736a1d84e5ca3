//! Where the applet looks for the node agents, and how it shows them.
use crate::json;
use crate::json::{Doc, Json};
use crate::link;
use crate::text;
use vstd::prelude::*;

verus! {

/// Where the applet looks for the agents.
#[derive(Debug)]
pub struct SparkConfig {
    /// Configured targets, either `host` or `host:port`.
    pub targets: Vec<String>,
    /// Optional shared token for the agent handshake.
    pub token: Option<String>,
    /// `false` disables all remote monitoring.
    pub enabled: bool,
    /// Use the engines the agents discover on their own ports.
    pub use_discovered: bool,
    /// Share one snapshot between several panel instances through a cache file.
    pub shared_cache: bool,
    /// Draw the local CPU/RAM/GPU history charts in the popup.
    pub show_local_charts: bool,
    /// Friendly names for client addresses, `ip -> name`.
    pub client_names: Vec<(String, String)>,
    /// Whether the remote section starts expanded in the popup.
    pub spark_section_open: bool,
}

/// A configuration as characters.
#[verifier::ext_equal]
pub struct Config {
    pub targets: Seq<Seq<char>>,
    pub token: Option<Seq<char>>,
    pub enabled: bool,
    pub use_discovered: bool,
    pub shared_cache: bool,
    pub show_local_charts: bool,
    pub client_names: Seq<(Seq<char>, Seq<char>)>,
    pub spark_section_open: bool,
}

/// Pairs of texts as characters.
pub open spec fn names(list: Seq<(String, String)>) -> Seq<(Seq<char>, Seq<char>)> {
    list.map_values(|p: (String, String)| (p.0@, p.1@))
}

impl View for SparkConfig {
    type V = Config;

    open spec fn view(&self) -> Config {
        Config {
            targets: text::views(self.targets@),
            token: match self.token {
                Some(t) => Some(t@),
                None => None,
            },
            enabled: self.enabled,
            use_discovered: self.use_discovered,
            shared_cache: self.shared_cache,
            show_local_charts: self.show_local_charts,
            client_names: names(self.client_names@),
            spark_section_open: self.spark_section_open,
        }
    }
}

/// The configuration without a file and without the environment.
pub open spec fn default_config() -> Config {
    Config {
        targets: seq!["node-01"@, "node-02"@],
        token: None,
        enabled: true,
        use_discovered: true,
        shared_cache: true,
        show_local_charts: true,
        client_names: Seq::empty(),
        spark_section_open: true,
    }
}

impl Default for SparkConfig {
    fn default() -> (r: Self)
        ensures
            r@ == default_config(),
    {
        let mut targets: Vec<String> = Vec::new();
        targets.push(text::copy("node-01"));
        targets.push(text::copy("node-02"));
        let r = SparkConfig {
            targets,
            token: None,
            enabled: true,
            use_discovered: true,
            shared_cache: true,
            show_local_charts: true,
            client_names: Vec::new(),
            spark_section_open: true,
        };
        assert(text::views(r.targets@) =~= seq!["node-01"@, "node-02"@]);
        assert(names(r.client_names@) =~= Seq::empty());
        r
    }
}

/// The trimmed texts that are not empty.
pub open spec fn stripped(list: Seq<Seq<char>>) -> Seq<Seq<char>>
    decreases list.len(),
{
    if list.len() == 0 {
        Seq::empty()
    } else {
        let rest = stripped(list.drop_last());
        let item = text::trimmed(list.last());
        if item.len() == 0 {
            rest
        } else {
            rest.push(item)
        }
    }
}

/// Trims texts and drops the empty ones.
pub fn strip_all(list: &Vec<String>) -> (r: Vec<String>)
    ensures
        text::views(r@) == stripped(text::views(list@)),
{
    let ghost all = text::views(list@);
    let mut out: Vec<String> = Vec::new();
    let mut i: usize = 0;
    assert(all.take(0) =~= Seq::empty());
    assert(text::views(out@) =~= Seq::empty());
    while i < list.len()
        invariant
            i <= list@.len(),
            all == text::views(list@),
            text::views(out@) == stripped(all.take(i as int)),
        decreases list@.len() - i,
    {
        let ghost before = out@;
        assert(all.take(i + 1).drop_last() =~= all.take(i as int));
        assert(all.take(i + 1).last() == list@[i as int]@);
        let item = text::trim(list[i].as_str());
        if !text::is_empty(item.as_str()) {
            out.push(item);
            assert(text::views(out@) =~= text::views(before).push(item@));
        }
        i += 1;
    }
    assert(all.take(all.len() as int) =~= all);
    out
}

/// The members that hold a text, as pairs.
pub open spec fn text_pairs(members: Seq<(Seq<char>, Doc)>) -> Seq<(Seq<char>, Seq<char>)>
    decreases members.len(),
{
    if members.len() == 0 {
        Seq::empty()
    } else {
        let rest = text_pairs(members.drop_last());
        match members.last().1 {
            Doc::Text(s) => rest.push((members.last().0, s)),
            _ => rest,
        }
    }
}

fn pairs_of(members: &Vec<(String, Json)>) -> (r: Vec<(String, String)>)
    ensures
        names(r@) == text_pairs(json::pairs(members@)),
{
    let ghost all = json::pairs(members@);
    let mut out: Vec<(String, String)> = Vec::new();
    let mut i: usize = 0;
    assert(all.take(0) =~= Seq::empty());
    assert(names(out@) =~= Seq::empty());
    while i < members.len()
        invariant
            i <= members@.len(),
            all == json::pairs(members@),
            names(out@) == text_pairs(all.take(i as int)),
        decreases members@.len() - i,
    {
        let ghost before = out@;
        assert(all.take(i + 1).drop_last() =~= all.take(i as int));
        assert(all.take(i + 1).last() == (members@[i as int].0@, members@[i as int].1@));
        if let Json::Text(s) = &members[i].1 {
            out.push((text::copy(members[i].0.as_str()), text::copy(s.as_str())));
            assert(names(out@) =~= names(before).push((members@[i as int].0@, s@)));
        }
        i += 1;
    }
    assert(all.take(all.len() as int) =~= all);
    out
}

/// A boolean member, or the value so far.
pub open spec fn flag_or(doc: Doc, key: Seq<char>, so_far: bool) -> bool {
    match json::bool_of(json::member(doc, key)) {
        Some(b) => b,
        None => so_far,
    }
}

/// A token without surrounding whitespace; an empty one is none.
pub open spec fn token_in(s: Seq<char>) -> Option<Seq<char>> {
    if text::trimmed(s).len() == 0 {
        None
    } else {
        Some(text::trimmed(s))
    }
}

/// The targets after a list of agents: an empty list leaves none, and one that
/// holds items but names no agent leaves the targets so far.
pub open spec fn targets_in(items: Seq<Doc>, so_far: Seq<Seq<char>>) -> Seq<Seq<char>> {
    let targets = stripped(json::texts(items));
    if items.len() == 0 || targets.len() > 0 {
        targets
    } else {
        so_far
    }
}

/// A configuration after a document: each member that the document holds in the
/// right kind replaces the value so far.
pub open spec fn applied(config: Config, doc: Doc) -> Config {
    Config {
        targets: match json::items_of(json::member(doc, "agents"@)) {
            Some(items) => targets_in(items, config.targets),
            None => config.targets,
        },
        token: match json::text_of(json::member(doc, "token"@)) {
            Some(s) => token_in(s),
            None => config.token,
        },
        enabled: flag_or(doc, "enabled"@, config.enabled),
        use_discovered: flag_or(doc, "use_discovered"@, config.use_discovered),
        shared_cache: flag_or(doc, "shared_cache"@, config.shared_cache),
        show_local_charts: flag_or(doc, "show_local_charts"@, config.show_local_charts),
        client_names: match json::members_of(json::member(doc, "client_names"@)) {
            Some(members) => text_pairs(members),
            None => config.client_names,
        },
        spark_section_open: flag_or(doc, "spark_section_open"@, config.spark_section_open),
    }
}

/// What the environment variable makes of a configuration: `off`, `none` and
/// nothing disable the monitoring, anything else is a comma-separated list.
pub open spec fn overridden(config: Config, value: Seq<char>) -> Config {
    let trimmed = text::trimmed(value);
    let lower = text::ascii_lower(trimmed);
    if lower == text::ascii_lower("off"@) || lower == text::ascii_lower("none"@) || trimmed.len()
        == 0 {
        Config { enabled: false, ..config }
    } else {
        let targets = stripped(text::pieces(trimmed, ','));
        Config { targets, enabled: targets.len() > 0, ..config }
    }
}

/// The configuration from the text of a file and from the environment, as far as
/// there are any; a file that is no JSON says nothing.
pub open spec fn loaded(file: Option<Seq<char>>, environment: Option<Seq<char>>) -> Config {
    let stored = match file {
        Some(t) => match json::json_text(t) {
            Some(doc) => applied(default_config(), doc),
            None => default_config(),
        },
        None => default_config(),
    };
    match environment {
        Some(value) => overridden(stored, value),
        None => stored,
    }
}

/// Pairs after one more, where the first texts increase: it takes its place, or
/// replaces the pair with the same first text.
pub open spec fn put(list: Seq<(Seq<char>, Seq<char>)>, pair: (Seq<char>, Seq<char>)) -> Seq<
    (Seq<char>, Seq<char>),
>
    decreases list.len(),
{
    if list.len() == 0 {
        seq![pair]
    } else if pair.0 == list[0].0 {
        list.update(0, pair)
    } else if text::before(pair.0, list[0].0) {
        seq![pair] + list
    } else {
        seq![list[0]] + put(list.drop_first(), pair)
    }
}

/// Pairs in the order of their first texts; of several with the same one, the
/// last counts.
pub open spec fn filed(list: Seq<(Seq<char>, Seq<char>)>) -> Seq<(Seq<char>, Seq<char>)>
    decreases list.len(),
{
    if list.len() == 0 {
        Seq::empty()
    } else {
        put(filed(list.drop_last()), list.last())
    }
}

/// The document that a configuration is stored as.
pub open spec fn config_doc(config: Config) -> Doc {
    Doc::Object(
        seq![
            ("agents"@, json::text_array(config.targets)),
            (
                "client_names"@,
                Doc::Object(
                    filed(config.client_names).map_values(
                        |p: (Seq<char>, Seq<char>)| (p.0, Doc::Text(p.1)),
                    ),
                ),
            ),
            ("enabled"@, Doc::Bool(config.enabled)),
            ("shared_cache"@, Doc::Bool(config.shared_cache)),
            ("show_local_charts"@, Doc::Bool(config.show_local_charts)),
            ("spark_section_open"@, Doc::Bool(config.spark_section_open)),
            (
                "token"@,
                Doc::Text(
                    match config.token {
                        Some(t) => t,
                        None => ""@,
                    },
                ),
            ),
            ("use_discovered"@, Doc::Bool(config.use_discovered)),
        ],
    )
}

fn put_name(list: &mut Vec<(String, String)>, ip: &str, name: &str)
    ensures
        names(final(list)@) == put(names(old(list)@), (ip@, name@)),
{
    let ghost all = names(list@);
    let ghost pair = (ip@, name@);
    let n: usize = list.len();
    let mut i: usize = 0;
    assert(all.skip(0) =~= all);
    assert(all.take(0) + put(all, pair) =~= put(all, pair));
    while i < n && !text::same(list[i].0.as_str(), ip) && !text::comes_before(
        ip,
        list[i].0.as_str(),
    )
        invariant
            i <= n == list@.len(),
            list@ == old(list)@,
            all == names(list@),
            pair == (ip@, name@),
            put(all, pair) == all.take(i as int) + put(all.skip(i as int), pair),
        decreases n - i,
    {
        let ghost rest = all.skip(i as int);
        assert(rest[0] == (list@[i as int].0@, list@[i as int].1@));
        assert(rest.drop_first() =~= all.skip(i + 1));
        assert(all.take(i as int) + (seq![rest[0]] + put(all.skip(i + 1), pair)) =~= all.take(
            i + 1,
        ) + put(all.skip(i + 1), pair));
        i += 1;
    }
    let ghost rest = all.skip(i as int);
    let entry = (text::copy(ip), text::copy(name));
    if i < n && text::same(list[i].0.as_str(), ip) {
        assert(rest[0].0 == ip@);
        list.set(i, entry);
        assert(names(list@) =~= all.take(i as int) + rest.update(0, pair));
    } else {
        list.insert(i, entry);
        if i < n {
            assert(rest[0] == all[i as int]);
            assert(names(list@) =~= all.take(i as int) + (seq![pair] + rest));
        } else {
            assert(names(list@) =~= all.take(i as int) + seq![pair]);
        }
    }
}

fn file_names(list: &Vec<(String, String)>) -> (r: Vec<(String, String)>)
    ensures
        names(r@) == filed(names(list@)),
{
    let ghost all = names(list@);
    let mut out: Vec<(String, String)> = Vec::new();
    let mut i: usize = 0;
    assert(all.take(0) =~= Seq::empty());
    assert(names(out@) =~= filed(all.take(0)));
    while i < list.len()
        invariant
            i <= list@.len(),
            all == names(list@),
            names(out@) == filed(all.take(i as int)),
        decreases list@.len() - i,
    {
        assert(all.take(i + 1).drop_last() =~= all.take(i as int));
        assert(all.take(i + 1).last() == (list@[i as int].0@, list@[i as int].1@));
        put_name(&mut out, list[i].0.as_str(), list[i].1.as_str());
        i += 1;
    }
    assert(all.take(all.len() as int) =~= all);
    out
}

impl SparkConfig {
    fn flag(value: &Json, key: &str, so_far: bool) -> (r: bool)
        ensures
            r == flag_or(value@, key@, so_far),
    {
        match json::as_bool(value.get(key)) {
            Some(b) => b,
            None => so_far,
        }
    }

    /// Takes the values of a configuration document.
    #[verifier::rlimit(30)]
    pub fn apply_file(&mut self, value: &Json)
        ensures
            final(self)@ == applied(old(self)@, value@),
    {
        self.enabled = Self::flag(value, "enabled", self.enabled);
        if let Some(token) = json::as_text(value.get("token")) {
            let token = text::trim(token.as_str());
            self.token = if text::is_empty(token.as_str()) {
                None
            } else {
                Some(token)
            };
        }
        self.use_discovered = Self::flag(value, "use_discovered", self.use_discovered);
        self.shared_cache = Self::flag(value, "shared_cache", self.shared_cache);
        self.show_local_charts = Self::flag(value, "show_local_charts", self.show_local_charts);
        self.spark_section_open = Self::flag(value, "spark_section_open", self.spark_section_open);
        if let Some(members) = json::as_object(value.get("client_names")) {
            self.client_names = pairs_of(members);
        }
        if let Some(items) = json::as_array(value.get("agents")) {
            let list = json::text_items(items);
            let targets = strip_all(&list);
            assert(text::views(targets@).len() == targets@.len());
            if items.len() == 0 || targets.len() > 0 {
                self.targets = targets;
            }
        }
    }

    /// Takes the value of the environment variable.
    pub fn apply_environment(&mut self, value: &str)
        ensures
            final(self)@ == overridden(old(self)@, value@),
    {
        let trimmed = text::trim(value);
        if text::same_ignoring_case(trimmed.as_str(), "off") || text::same_ignoring_case(
            trimmed.as_str(),
            "none",
        ) || text::is_empty(trimmed.as_str()) {
            self.enabled = false;
        } else {
            let list = text::split_char(trimmed.as_str(), ',');
            let targets = strip_all(&list);
            assert(text::views(targets@).len() == targets@.len());
            self.enabled = targets.len() > 0;
            self.targets = targets;
        }
    }

    /// The configuration from the text of the file and the environment
    /// variable: the environment wins over the file, the file over the defaults.
    pub fn load(file: Option<&str>, environment: Option<&str>) -> (r: Self)
        ensures
            r@ == loaded(link::chars(file), link::chars(environment)),
    {
        let mut config = SparkConfig::default();
        if let Some(t) = file {
            if let Ok(value) = json::parse(t) {
                config.apply_file(&value);
            }
        }
        if let Some(value) = environment {
            config.apply_environment(value);
        }
        config
    }

    /// The document that the configuration is stored as.
    pub fn document(&self) -> (r: Json)
        ensures
            r@ == config_doc(self@),
    {
        let sorted = file_names(&self.client_names);
        let mut list = json::no_members();
        let mut i: usize = 0;
        let ghost all = filed(self@.client_names);
        assert(all.take(0) =~= Seq::empty());
        while i < sorted.len()
            invariant
                i <= sorted@.len(),
                all == names(sorted@),
                json::pairs(list@) == all.take(i as int).map_values(
                    |p: (Seq<char>, Seq<char>)| (p.0, Doc::Text(p.1)),
                ),
            decreases sorted@.len() - i,
        {
            list = json::with(
                list,
                sorted[i].0.as_str(),
                Json::Text(text::copy(sorted[i].1.as_str())),
            );
            assert(all[i as int] == (sorted@[i as int].0@, sorted@[i as int].1@));
            assert(json::pairs(list@) =~= all.take(i + 1).map_values(
                |p: (Seq<char>, Seq<char>)| (p.0, Doc::Text(p.1)),
            ));
            i += 1;
        }
        assert(all.take(all.len() as int) =~= all);
        let token = match &self.token {
            Some(t) => text::copy(t.as_str()),
            None => text::copy(""),
        };
        let m = json::no_members();
        let m = json::with(m, "agents", json::array_of_texts(&self.targets));
        let m = json::with(m, "client_names", json::object(list));
        let m = json::with(m, "enabled", Json::Bool(self.enabled));
        let m = json::with(m, "shared_cache", Json::Bool(self.shared_cache));
        let m = json::with(m, "show_local_charts", Json::Bool(self.show_local_charts));
        let m = json::with(m, "spark_section_open", Json::Bool(self.spark_section_open));
        let m = json::with(m, "token", Json::Text(token));
        let m = json::with(m, "use_discovered", Json::Bool(self.use_discovered));
        let r = json::object(m);
        assert(r@->Object_0 =~= config_doc(self@)->Object_0);
        r
    }

    /// A configuration with the same values.
    pub fn copy(&self) -> (r: Self)
        ensures
            r@ == self@,
    {
        let mut client_names: Vec<(String, String)> = Vec::new();
        let mut i: usize = 0;
        while i < self.client_names.len()
            invariant
                i <= self.client_names@.len(),
                names(client_names@) == names(self.client_names@).take(i as int),
            decreases self.client_names@.len() - i,
        {
            let ghost before = client_names@;
            client_names.push(
                (
                    text::copy(self.client_names[i].0.as_str()),
                    text::copy(self.client_names[i].1.as_str()),
                ),
            );
            assert(names(client_names@) =~= names(before).push(
                (self.client_names@[i as int].0@, self.client_names@[i as int].1@),
            ));
            i += 1;
        }
        assert(names(client_names@) =~= names(self.client_names@));
        SparkConfig {
            targets: text::copy_list(&self.targets),
            token: match &self.token {
                Some(t) => Some(text::copy(t.as_str())),
                None => None,
            },
            enabled: self.enabled,
            use_discovered: self.use_discovered,
            shared_cache: self.shared_cache,
            show_local_charts: self.show_local_charts,
            client_names,
            spark_section_open: self.spark_section_open,
        }
    }
}

// ---------------------------------------------------------------- storing

/// Whether a configuration can be stored without loss: its targets and its
/// token carry no surrounding whitespace and are not empty.
pub open spec fn storable(config: Config) -> bool {
    &&& stripped(config.targets) == config.targets
    &&& (config.token matches Some(t) ==> token_in(t) == Some(t))
}

/// Whether the first texts of the pairs increase.
pub open spec fn ascending(list: Seq<(Seq<char>, Seq<char>)>) -> bool {
    forall|i: int, j: int|
        0 <= i < j < list.len() ==> text::before((#[trigger] list[i]).0, (#[trigger] list[j]).0)
}

/// Whether no two pairs have the same first text.
pub open spec fn apart(list: Seq<(Seq<char>, Seq<char>)>) -> bool {
    forall|i: int, j: int|
        0 <= i < j < list.len() ==> (#[trigger] list[i]).0 != (#[trigger] list[j]).0
}

/// Whether a pair has this first text.
pub open spec fn lists(list: Seq<(Seq<char>, Seq<char>)>, key: Seq<char>) -> bool {
    exists|i: int| 0 <= i < list.len() && (#[trigger] list[i]).0 == key
}

proof fn lemma_put(list: Seq<(Seq<char>, Seq<char>)>, pair: (Seq<char>, Seq<char>))
    requires
        ascending(list),
    ensures
        ascending(put(list, pair)),
        forall|key: Seq<char>| #[trigger]
            lists(put(list, pair), key) <==> key == pair.0 || lists(list, key),
        !lists(list, pair.0) ==> put(list, pair).to_multiset() == list.to_multiset().insert(pair),
    decreases list.len(),
{
    broadcast use vstd::seq_lib::group_to_multiset_ensures;

    let all = put(list, pair);
    if list.len() == 0 {
        assert(all =~= list.push(pair));
        assert(all[0] == pair);
    } else if pair.0 == list[0].0 {
        assert(all[0] == pair);
        assert(forall|i: int| 0 < i < list.len() ==> all[i] == list[i]);
        assert forall|key: Seq<char>| #[trigger]
            lists(all, key) <==> key == pair.0 || lists(list, key) by {
            if lists(list, key) {
                let i = choose|i: int| 0 <= i < list.len() && (#[trigger] list[i]).0 == key;
                assert(all[i].0 == key);
            }
            if lists(all, key) {
                let i = choose|i: int| 0 <= i < all.len() && (#[trigger] all[i]).0 == key;
                assert(list[i].0 == key);
            }
        }
    } else {
        let rest = list.drop_first();
        text::lemma_before_total(pair.0, list[0].0);
        if text::before(pair.0, list[0].0) {
            assert(all[0] == pair);
            assert(forall|i: int| 0 < i < all.len() ==> all[i] == list[i - 1]);
            assert forall|i: int, j: int| 0 <= i < j < all.len() implies text::before(
                (#[trigger] all[i]).0,
                (#[trigger] all[j]).0,
            ) by {
                if i == 0 && j > 1 {
                    assert(text::before(list[0].0, list[j - 1].0));
                    text::lemma_before_transitive(pair.0, list[0].0, list[j - 1].0);
                }
            }
            assert forall|key: Seq<char>| #[trigger]
                lists(all, key) <==> key == pair.0 || lists(list, key) by {
                if lists(list, key) {
                    let i = choose|i: int| 0 <= i < list.len() && (#[trigger] list[i]).0 == key;
                    assert(all[i + 1].0 == key);
                }
            }
            assert(all =~= list.insert(0, pair));
            vstd::seq_lib::to_multiset_insert(list, 0, pair);
        } else {
            assert forall|i: int, j: int| 0 <= i < j < rest.len() implies text::before(
                (#[trigger] rest[i]).0,
                (#[trigger] rest[j]).0,
            ) by {
                assert(rest[i] == list[i + 1] && rest[j] == list[j + 1]);
            }
            lemma_put(rest, pair);
            let behind = put(rest, pair);
            assert(all[0] == list[0]);
            assert(forall|i: int| 0 < i < all.len() ==> all[i] == behind[i - 1]);
            assert forall|j: int| 0 < j < all.len() implies text::before(
                list[0].0,
                (#[trigger] all[j]).0,
            ) by {
                assert(behind[j - 1].0 == all[j].0);
                assert(lists(behind, all[j].0));
                if all[j].0 != pair.0 {
                    let k = choose|k: int|
                        0 <= k < rest.len() && (#[trigger] rest[k]).0 == all[j].0;
                    assert(rest[k] == list[k + 1]);
                }
            }
            assert forall|i: int, j: int| 0 <= i < j < all.len() implies text::before(
                (#[trigger] all[i]).0,
                (#[trigger] all[j]).0,
            ) by {
                if i > 0 {
                    assert(all[i] == behind[i - 1] && all[j] == behind[j - 1]);
                }
            }
            assert forall|key: Seq<char>| #[trigger] lists(list, key) <==> key == list[0].0 || lists(
                rest,
                key,
            ) by {
                if lists(list, key) {
                    let i = choose|i: int| 0 <= i < list.len() && (#[trigger] list[i]).0 == key;
                    if i > 0 {
                        assert(rest[i - 1].0 == key);
                    }
                }
                if lists(rest, key) {
                    let i = choose|i: int| 0 <= i < rest.len() && (#[trigger] rest[i]).0 == key;
                    assert(list[i + 1].0 == key);
                }
            }
            assert forall|key: Seq<char>| #[trigger]
                lists(all, key) <==> key == pair.0 || lists(list, key) by {
                if lists(behind, key) {
                    let i = choose|i: int| 0 <= i < behind.len() && (#[trigger] behind[i]).0 == key;
                    assert(all[i + 1].0 == key);
                }
                if lists(all, key) {
                    let i = choose|i: int| 0 <= i < all.len() && (#[trigger] all[i]).0 == key;
                    if i > 0 {
                        assert(behind[i - 1].0 == key);
                    }
                }
            }
            if !lists(list, pair.0) {
                assert(list =~= rest.insert(0, list[0]));
                assert(all =~= behind.insert(0, list[0]));
                vstd::seq_lib::to_multiset_insert(rest, 0, list[0]);
                vstd::seq_lib::to_multiset_insert(behind, 0, list[0]);
                assert(all.to_multiset() =~= list.to_multiset().insert(pair));
            }
        }
    }
}

/// Filing puts the addresses in increasing order and keeps each of them. Where no
/// address occurs twice it changes nothing but the order, and pairs that are in
/// order stay as they are.
pub proof fn filing_keeps_the_names(list: Seq<(Seq<char>, Seq<char>)>)
    ensures
        ascending(filed(list)),
        forall|key: Seq<char>| #[trigger] lists(filed(list), key) <==> lists(list, key),
        apart(list) ==> filed(list).to_multiset() == list.to_multiset(),
        ascending(list) ==> filed(list) == list,
    decreases list.len(),
{
    broadcast use vstd::seq_lib::group_to_multiset_ensures;

    if list.len() > 0 {
        let shorter = list.drop_last();
        let pair = list.last();
        filing_keeps_the_names(shorter);
        lemma_put(filed(shorter), pair);
        assert(shorter.push(pair) =~= list);
        assert forall|key: Seq<char>| #[trigger] lists(list, key) <==> key == pair.0 || lists(
            shorter,
            key,
        ) by {
            if lists(shorter, key) {
                let i = choose|i: int| 0 <= i < shorter.len() && (#[trigger] shorter[i]).0 == key;
                assert(list[i].0 == key);
            }
            if lists(list, key) {
                let i = choose|i: int| 0 <= i < list.len() && (#[trigger] list[i]).0 == key;
                if i < shorter.len() {
                    assert(shorter[i].0 == key);
                }
            }
            if key == pair.0 {
                assert(list[list.len() - 1].0 == key);
            }
        }
        if apart(list) {
            assert forall|i: int, j: int| 0 <= i < j < shorter.len() implies (
            #[trigger] shorter[i]).0 != (#[trigger] shorter[j]).0 by {
                assert(list[i].0 != list[j].0);
            }
            if lists(shorter, pair.0) {
                let i = choose|i: int| 0 <= i < shorter.len() && (#[trigger] shorter[i]).0
                    == pair.0;
                assert(list[i].0 != list[list.len() - 1].0);
            }
            assert(filed(list).to_multiset() =~= list.to_multiset());
        }
        if ascending(list) {
            assert forall|i: int, j: int| 0 <= i < j < shorter.len() implies text::before(
                (#[trigger] shorter[i]).0,
                (#[trigger] shorter[j]).0,
            ) by {
                assert(text::before(list[i].0, list[j].0));
            }
            assert forall|i: int| 0 <= i < shorter.len() implies text::before(
                (#[trigger] shorter[i]).0,
                pair.0,
            ) by {
                assert(text::before(list[i].0, list[list.len() - 1].0));
            }
            lemma_put_last(shorter, pair);
        }
    } else {
        assert(filed(list) =~= list);
        assert(filed(list).to_multiset() =~= list.to_multiset());
    }
}

proof fn lemma_put_last(list: Seq<(Seq<char>, Seq<char>)>, pair: (Seq<char>, Seq<char>))
    requires
        forall|i: int| 0 <= i < list.len() ==> text::before((#[trigger] list[i]).0, pair.0),
    ensures
        put(list, pair) == list.push(pair),
    decreases list.len(),
{
    if list.len() > 0 {
        let rest = list.drop_first();
        text::lemma_before_total(list[0].0, pair.0);
        assert forall|i: int| 0 <= i < rest.len() implies text::before(
            (#[trigger] rest[i]).0,
            pair.0,
        ) by {
            assert(rest[i] == list[i + 1]);
        }
        lemma_put_last(rest, pair);
    }
    assert(put(list, pair) =~= list.push(pair));
}

spec fn name_members(list: Seq<(Seq<char>, Seq<char>)>) -> Seq<(Seq<char>, Doc)> {
    list.map_values(|p: (Seq<char>, Seq<char>)| (p.0, Doc::Text(p.1)))
}

proof fn lemma_name_members(list: Seq<(Seq<char>, Seq<char>)>)
    ensures
        text_pairs(name_members(list)) == list,
    decreases list.len(),
{
    if list.len() > 0 {
        let shorter = list.drop_last();
        lemma_name_members(shorter);
        assert(name_members(list).drop_last() =~= name_members(shorter));
        assert(shorter.push(list.last()) =~= list);
    } else {
        assert(text_pairs(name_members(list)) =~= list);
    }
}

proof fn lemma_rising(config: Config)
    ensures
        json::rising(config_doc(config)->Object_0),
{
    reveal_strlit("agents");
    reveal_strlit("client_names");
    reveal_strlit("enabled");
    reveal_strlit("shared_cache");
    reveal_strlit("show_local_charts");
    reveal_strlit("spark_section_open");
    reveal_strlit("token");
    reveal_strlit("use_discovered");
    let m = config_doc(config)->Object_0;
    assert(m.len() == 8);
    reveal_with_fuel(text::before, 4);
    assert(text::before(m[3].0, m[4].0));
    assert(text::before(m[3].0, m[5].0));
    assert(text::before(m[4].0, m[5].0));
    assert forall|i: int, j: int| 0 <= i < j < m.len() implies text::before(
        (#[trigger] m[i]).0,
        (#[trigger] m[j]).0,
    ) by {
        let a = m[i].0;
        let b = m[j].0;
        assert(a.len() > 0 && b.len() > 0);
        assert(i == 0 ==> a[0] == 'a');
        assert(i == 1 || j == 1 ==> (i == 1 ==> a[0] == 'c') && (j == 1 ==> b[0] == 'c'));
        assert(i == 2 || j == 2 ==> (i == 2 ==> a[0] == 'e') && (j == 2 ==> b[0] == 'e'));
        assert(3 <= i <= 5 ==> a[0] == 's');
        assert(3 <= j <= 5 ==> b[0] == 's');
        assert(i == 6 || j == 6 ==> (i == 6 ==> a[0] == 't') && (j == 6 ==> b[0] == 't'));
        assert(j == 7 ==> b[0] == 'u');
    }
}

proof fn lemma_plain(config: Config)
    ensures
        json::whole(config_doc(config)),
        json::canonical(config_doc(config)),
        json::depth(config_doc(config)) < 128,
{
    let m = config_doc(config)->Object_0;
    let filed_names = filed(config.client_names);
    let list = name_members(filed_names);
    lemma_rising(config);
    filing_keeps_the_names(config.client_names);
    json::lemma_text_array(config.targets);
    assert(m[1].1 == Doc::Object(list));
    assert forall|i: int| 0 <= i < list.len() implies json::whole((#[trigger] list[i]).1)
        && json::canonical(list[i].1) && json::depth(list[i].1) == 0 by {
        assert(list[i].1 == Doc::Text(filed_names[i].1));
    }
    assert forall|i: int, j: int| 0 <= i < j < list.len() implies text::before(
        (#[trigger] list[i]).0,
        (#[trigger] list[j]).0,
    ) by {
        assert(list[i].0 == filed_names[i].0);
        assert(list[j].0 == filed_names[j].0);
    }
    assert(json::canonical(m[1].1));
    json::lemma_deepest_member(list, 0);
    assert(json::whole(m[1].1) && json::depth(m[1].1) <= 1);
    assert forall|i: int| 0 <= i < m.len() implies json::whole((#[trigger] m[i]).1) && json::depth(
        m[i].1,
    ) <= 1 && json::canonical(m[i].1) by {}
    json::lemma_deepest_member(m, 1);
}

impl SparkConfig {
    /// The text of the configuration file. It is read back as the document that
    /// was written.
    pub fn file_text(&self) -> (r: String)
        ensures
            r@ == json::json_pretty(config_doc(self@)) + "\n"@,
            json::json_text(r@) == Some(config_doc(self@)),
    {
        let document = self.document();
        proof {
            lemma_plain(self@);
            reveal_strlit("\n");
        }
        let mut out = json::render_pretty(&document);
        let ghost body = out@;
        out.append("\n");
        assert(out@ =~= body.push('\n'));
        out
    }
}

/// What is stored is what is loaded: applying the stored document to any
/// configuration gives the stored configuration, with the client names in the
/// order of their addresses.
pub proof fn stored_settings_come_back(config: Config, before: Config)
    requires
        storable(config),
    ensures
        applied(before, config_doc(config)) == (Config {
            client_names: filed(config.client_names),
            ..config
        }),
{
    let doc = config_doc(config);
    let m = doc->Object_0;
    let list = filed(config.client_names);
    lemma_rising(config);
    json::lemma_lookup(m, 0);
    json::lemma_lookup(m, 1);
    json::lemma_lookup(m, 2);
    json::lemma_lookup(m, 3);
    json::lemma_lookup(m, 4);
    json::lemma_lookup(m, 5);
    json::lemma_lookup(m, 6);
    json::lemma_lookup(m, 7);
    json::lemma_text_array(config.targets);
    lemma_name_members(list);
    assert(json::members_of(json::member(doc, "client_names"@)) == Some(name_members(list)));
    reveal_strlit("");
    assert(text::trimmed(""@) =~= Seq::empty());
    assert(applied(before, doc) =~= (Config { client_names: list, ..config }));
}

/// The file that a configuration is written to gives it back when it is loaded;
/// client names with different addresses come back in the order of the addresses.
/// `file` is what `file_text` wrote.
pub proof fn the_settings_file_is_read_again(config: Config, file: Seq<char>)
    requires
        storable(config),
        json::json_text(file) == Some(config_doc(config)),
    ensures
        ({
            let again = loaded(Some(file), None);
            &&& again == (Config { client_names: again.client_names, ..config })
            &&& apart(config.client_names) ==> again.client_names.to_multiset()
                == config.client_names.to_multiset()
            &&& ascending(config.client_names) ==> again == config
        }),
{
    stored_settings_come_back(config, default_config());
    filing_keeps_the_names(config.client_names);
}

/// Monitoring switched off by the environment stays off whatever the file says.
pub proof fn the_environment_wins(config: Config, value: Seq<char>)
    requires
        text::ascii_lower(text::trimmed(value)) == text::ascii_lower("off"@),
    ensures
        !overridden(config, value).enabled,
        overridden(config, value).targets == config.targets,
{
}

// ---------------------------------------------------------------- changes

impl SparkConfig {
    /// Switches between discovered engines and explicit data only.
    pub fn toggle_use_discovered(&mut self)
        ensures
            final(self)@ == (Config { use_discovered: !old(self)@.use_discovered, ..old(self)@ }),
    {
        self.use_discovered = !self.use_discovered;
    }

    /// Switches the shared snapshot on or off.
    pub fn toggle_shared_cache(&mut self)
        ensures
            final(self)@ == (Config { shared_cache: !old(self)@.shared_cache, ..old(self)@ }),
    {
        self.shared_cache = !self.shared_cache;
    }

    /// Shows or hides the local history charts.
    pub fn toggle_show_local_charts(&mut self)
        ensures
            final(self)@ == (Config { show_local_charts: !old(self)@.show_local_charts, ..old(self)@ }),
    {
        self.show_local_charts = !self.show_local_charts;
    }

    /// Chooses whether the remote section starts expanded.
    pub fn toggle_spark_section_open(&mut self)
        ensures
            final(self)@ == (Config { spark_section_open: !old(self)@.spark_section_open, ..old(self)@ }),
    {
        self.spark_section_open = !self.spark_section_open;
    }

    /// Adds a target at the end.
    pub fn add_target(&mut self, target: String)
        ensures
            final(self)@ == (Config {
                targets: old(self)@.targets.push(target@),
                ..old(self)@
            }),
    {
        self.targets.push(target);
        assert(text::views(self.targets@) =~= old(self)@.targets.push(target@));
    }

    /// Removes the target at a position, where there is one.
    pub fn remove_target(&mut self, index: usize)
        ensures
            final(self)@ == (if index < old(self)@.targets.len() {
                Config { targets: old(self)@.targets.remove(index as int), ..old(self)@ }
            } else {
                old(self)@
            }),
    {
        assert(text::views(self.targets@).len() == self.targets@.len());
        if index < self.targets.len() {
            self.targets.remove(index);
            assert(text::views(self.targets@) =~= old(self)@.targets.remove(index as int));
        }
    }
}

/// Every setting follows the member of its name: a value of the right kind is
/// taken, and a document without it leaves the setting as it was.
pub proof fn settings_follow_their_members(config: Config, doc: Doc)
    ensures
        ({
            let after = applied(config, doc);
            &&& json::member(doc, "enabled"@) matches Some(Doc::Bool(b)) ==> after.enabled == b
            &&& json::member(doc, "enabled"@) is None ==> after.enabled == config.enabled
            &&& json::member(doc, "use_discovered"@) matches Some(Doc::Bool(b))
                ==> after.use_discovered == b
            &&& json::member(doc, "use_discovered"@) is None ==> after.use_discovered
                == config.use_discovered
            &&& json::member(doc, "shared_cache"@) matches Some(Doc::Bool(b))
                ==> after.shared_cache == b
            &&& json::member(doc, "shared_cache"@) is None ==> after.shared_cache
                == config.shared_cache
            &&& json::member(doc, "show_local_charts"@) matches Some(Doc::Bool(b))
                ==> after.show_local_charts == b
            &&& json::member(doc, "show_local_charts"@) is None ==> after.show_local_charts
                == config.show_local_charts
            &&& json::member(doc, "spark_section_open"@) matches Some(Doc::Bool(b))
                ==> after.spark_section_open == b
            &&& json::member(doc, "spark_section_open"@) is None ==> after.spark_section_open
                == config.spark_section_open
            &&& json::member(doc, "token"@) is None ==> after.token == config.token
            &&& json::member(doc, "token"@) matches Some(Doc::Text(s)) ==> (if text::trimmed(
                s,
            ).len() == 0 {
                after.token is None
            } else {
                after.token == Some(text::trimmed(s))
            })
            &&& json::member(doc, "agents"@) is None ==> after.targets == config.targets
            &&& json::member(doc, "client_names"@) is None ==> after.client_names
                == config.client_names
        }),
{
}

/// The agents of a file are its texts, trimmed and without empty ones, in order.
/// An empty list leaves none; one that names nobody changes nothing.
pub proof fn agents_follow_their_list(config: Config, doc: Doc, list: Seq<Seq<char>>)
    requires
        json::member(doc, "agents"@) == Some(json::text_array(list)),
    ensures
        list.len() == 0 ==> applied(config, doc).targets.len() == 0,
        (forall|i: int| 0 <= i < list.len() ==> text::trimmed(#[trigger] list[i]).len() > 0)
            ==> applied(config, doc).targets == list.map_values(|s: Seq<char>| text::trimmed(s)),
        list.len() > 0 && (forall|i: int|
            0 <= i < list.len() ==> text::trimmed(#[trigger] list[i]).len() == 0) ==> applied(
            config,
            doc,
        ).targets == config.targets,
{
    json::lemma_text_array(list);
    if forall|i: int| 0 <= i < list.len() ==> text::trimmed(#[trigger] list[i]).len() > 0 {
        lemma_strip_all(list);
    }
    if forall|i: int| 0 <= i < list.len() ==> text::trimmed(#[trigger] list[i]).len() == 0 {
        lemma_strip_none(list);
    }
}

proof fn lemma_strip_all(list: Seq<Seq<char>>)
    requires
        forall|i: int| 0 <= i < list.len() ==> text::trimmed(#[trigger] list[i]).len() > 0,
    ensures
        stripped(list) == list.map_values(|s: Seq<char>| text::trimmed(s)),
    decreases list.len(),
{
    let trim = |s: Seq<char>| text::trimmed(s);
    if list.len() > 0 {
        let shorter = list.drop_last();
        assert forall|i: int| 0 <= i < shorter.len() implies text::trimmed(
            #[trigger] shorter[i],
        ).len() > 0 by {
            assert(shorter[i] == list[i]);
        }
        lemma_strip_all(shorter);
        assert(text::trimmed(list[list.len() - 1]).len() > 0);
        assert(stripped(list) =~= list.map_values(trim));
    } else {
        assert(stripped(list) =~= list.map_values(trim));
    }
}

proof fn lemma_strip_none(list: Seq<Seq<char>>)
    requires
        forall|i: int| 0 <= i < list.len() ==> text::trimmed(#[trigger] list[i]).len() == 0,
    ensures
        stripped(list).len() == 0,
    decreases list.len(),
{
    if list.len() > 0 {
        let shorter = list.drop_last();
        assert forall|i: int| 0 <= i < shorter.len() implies text::trimmed(
            #[trigger] shorter[i],
        ).len() == 0 by {
            assert(shorter[i] == list[i]);
        }
        lemma_strip_none(shorter);
        assert(text::trimmed(list[list.len() - 1]).len() == 0);
    }
}

/// The names of clients are the members that hold a text, in order.
pub proof fn client_names_are_texts(members: Seq<(Seq<char>, Doc)>, ip: Seq<char>, value: Doc)
    ensures
        text_pairs(Seq::empty()).len() == 0,
        value matches Doc::Text(name) ==> text_pairs(members.push((ip, value))) == text_pairs(
            members,
        ).push((ip, name)),
        !(value is Text) ==> text_pairs(members.push((ip, value))) == text_pairs(members),
{
    assert(members.push((ip, value)).drop_last() =~= members);
}

/// The environment can switch the monitoring off, in any case of the word and
/// with whitespace around it; anything else is a list of targets.
pub proof fn the_environment_switches_off(config: Config, value: Seq<char>)
    ensures
        ({
            let trimmed = text::trimmed(value);
            let off = trimmed.len() == 0 || text::ascii_lower(trimmed) == "off"@
                || text::ascii_lower(trimmed) == "none"@;
            &&& off ==> overridden(config, value) == (Config { enabled: false, ..config })
            &&& !off ==> overridden(config, value).targets == stripped(text::pieces(trimmed, ','))
                && overridden(config, value).token == config.token
            &&& !off ==> (overridden(config, value).enabled <==> stripped(
                text::pieces(trimmed, ','),
            ).len() > 0)
        }),
{
    reveal_strlit("off");
    reveal_strlit("none");
    assert(text::ascii_lower("off"@) =~= "off"@);
    assert(text::ascii_lower("none"@) =~= "none"@);
}

/// Without a file and without the environment there are two nodes, everything is
/// shown and no token is sent.
pub proof fn defaults_show_everything()
    ensures
        loaded(None, None) == default_config(),
        default_config().targets == seq!["node-01"@, "node-02"@],
        default_config().token is None,
        default_config().enabled,
        default_config().use_discovered,
        default_config().shared_cache,
        default_config().show_local_charts,
        default_config().spark_section_open,
        default_config().client_names.len() == 0,
{
}

/// The file is read first and the environment decides; a file that is no JSON
/// says nothing.
pub proof fn files_come_before_the_environment(file: Seq<char>, value: Seq<char>)
    ensures
        json::json_text(file) is None ==> loaded(Some(file), None) == loaded(None, None),
        json::json_text(file) matches Some(doc) ==> loaded(Some(file), None) == applied(
            loaded(None, None),
            doc,
        ),
        loaded(Some(file), Some(value)) == overridden(loaded(Some(file), None), value),
{
}

} // verus!
