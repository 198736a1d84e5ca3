//! What the popup says about the nodes: engines, models, versions, warnings.
use crate::ieee;
use crate::install;
use crate::install::AgentVersionState;
use crate::order;
use crate::spark;
use crate::spark::{Agent, AgentState, Engine, EngineInfo, SparkSnapshot};
use crate::text;
use vstd::prelude::*;

verus! {

// ---------------------------------------------------------------- engines

/// The engines of a node that are, or are not, primary, each with its node.
pub open spec fn engines_with(agent: Agent, engines: Seq<Engine>, primary: bool) -> Seq<
    (Agent, Engine),
>
    decreases engines.len(),
{
    if engines.len() == 0 {
        Seq::empty()
    } else {
        let rest = engines_with(agent, engines.drop_last(), primary);
        if engines.last().primary == primary {
            rest.push((agent, engines.last()))
        } else {
            rest
        }
    }
}

/// The engines of all reachable nodes that are, or are not, primary.
pub open spec fn engines_where(agents: Seq<Agent>, primary: bool) -> Seq<(Agent, Engine)>
    decreases agents.len(),
{
    if agents.len() == 0 {
        Seq::empty()
    } else {
        let rest = engines_where(agents.drop_last(), primary);
        if agents.last().online {
            rest + engines_with(agents.last(), agents.last().engines, primary)
        } else {
            rest
        }
    }
}

/// Every engine reported by a reachable node, primary engines first.
pub open spec fn engine_rows(agents: Seq<Agent>) -> Seq<(Agent, Engine)> {
    engines_where(agents, true) + engines_where(agents, false)
}

/// Rows of references as characters.
pub open spec fn row_views(rows: Seq<(&AgentState, &EngineInfo)>) -> Seq<(Agent, Engine)> {
    rows.map_values(|p: (&AgentState, &EngineInfo)| (p.0@, p.1@))
}

impl SparkSnapshot {
    fn push_engines<'a>(&'a self, out: &mut Vec<(&'a AgentState, &'a EngineInfo)>, primary: bool)
        ensures
            row_views(final(out)@) == row_views(old(out)@) + engines_where(self@.agents, primary),
    {
        let ghost all = self@.agents;
        let ghost start = row_views(old(out)@);
        let mut i: usize = 0;
        assert(all.take(0) =~= Seq::empty());
        assert(row_views(out@) =~= start + engines_where(all.take(0), primary));
        while i < self.agents.len()
            invariant
                i <= self.agents@.len(),
                all == spark::agent_views(self.agents@),
                row_views(out@) == start + engines_where(all.take(i as int), primary),
            decreases self.agents@.len() - i,
        {
            assert(all.take(i + 1).drop_last() =~= all.take(i as int));
            assert(all.take(i + 1).last() == self.agents@[i as int]@);
            let agent = &self.agents[i];
            let ghost before = row_views(out@);
            if agent.online {
                let ghost list = agent@.engines;
                let mut k: usize = 0;
                assert(list.take(0) =~= Seq::empty());
                assert(row_views(out@) =~= before + engines_with(agent@, list.take(0), primary));
                while k < agent.engines.len()
                    invariant
                        k <= agent.engines@.len(),
                        list == spark::engine_views(agent.engines@),
                        row_views(out@) == before + engines_with(
                            agent@,
                            list.take(k as int),
                            primary,
                        ),
                    decreases agent.engines@.len() - k,
                {
                    assert(list.take(k + 1).drop_last() =~= list.take(k as int));
                    assert(list.take(k + 1).last() == agent.engines@[k as int]@);
                    let engine = &agent.engines[k];
                    let ghost here = out@;
                    if engine.primary == primary {
                        out.push((agent, engine));
                        assert(row_views(out@) =~= row_views(here).push((agent@, engine@)));
                        assert(row_views(out@) =~= before + engines_with(
                            agent@,
                            list.take(k + 1),
                            primary,
                        ));
                    }
                    k += 1;
                }
                assert(list.take(list.len() as int) =~= list);
                assert(row_views(out@) =~= start + engines_where(all.take(i + 1), primary));
            }
            i += 1;
        }
        assert(all.take(all.len() as int) =~= all);
    }

    /// Every engine reported by a reachable node, primary engines first.
    pub fn engines(&self) -> (r: Vec<(&AgentState, &EngineInfo)>)
        ensures
            row_views(r@) == engine_rows(self@.agents),
    {
        let mut out: Vec<(&AgentState, &EngineInfo)> = Vec::new();
        assert(row_views(out@) =~= Seq::empty());
        self.push_engines(&mut out, true);
        self.push_engines(&mut out, false);
        assert(row_views(out@) =~= engine_rows(self@.agents));
        out
    }

    /// Number of engines discovered across all reachable nodes.
    pub fn engine_count(&self) -> (r: usize)
        ensures
            r == engine_rows(self@.agents).len(),
    {
        let rows = self.engines();
        assert(row_views(rows@).len() == rows@.len());
        rows.len()
    }
}

// ---------------------------------------------------------------- models

/// Whether a list of texts increases strictly.
pub open spec fn climbing(list: Seq<Seq<char>>) -> bool {
    forall|i: int, j: int|
        0 <= i < j < list.len() ==> text::before(#[trigger] list[i], #[trigger] list[j])
}

/// Whether some engine serves a model of this name.
pub open spec fn served(rows: Seq<(Agent, Engine)>, name: Seq<char>) -> bool {
    exists|i: int| 0 <= i < rows.len() && (#[trigger] rows[i]).1.models.contains(name)
}

/// Adds a text to an increasing list, once.
fn add_name(list: &mut Vec<String>, name: &str)
    requires
        climbing(text::views(old(list)@)),
    ensures
        climbing(text::views(final(list)@)),
        forall|s: Seq<char>| #[trigger]
            text::views(final(list)@).contains(s) <==> text::views(old(list)@).contains(s) || s
                == name@,
{
    let ghost all = text::views(list@);
    let n: usize = list.len();
    let mut i: usize = 0;
    while i < n && text::comes_before(list[i].as_str(), name)
        invariant
            i <= n == list@.len(),
            all == text::views(list@),
            list@ == old(list)@,
            forall|k: int| 0 <= k < i ==> text::before(#[trigger] all[k], name@),
        decreases n - i,
    {
        i += 1;
    }
    if i < n && text::same(list[i].as_str(), name) {
        assert(all[i as int] == name@);
        return;
    }
    proof {
        if i < n {
            text::lemma_before_total(all[i as int], name@);
            assert(text::before(name@, all[i as int]));
        }
    }
    list.insert(i, text::copy(name));
    let ghost after = text::views(list@);
    assert(after =~= all.insert(i as int, name@));
    proof {
        assert forall|a: int, b: int| 0 <= a < b < after.len() implies text::before(
            #[trigger] after[a],
            #[trigger] after[b],
        ) by {
            if a < i && b < i {
                assert(after[a] == all[a] && after[b] == all[b]);
            } else if a < i && b == i {
                assert(after[a] == all[a]);
            } else if a < i {
                assert(after[a] == all[a] && after[b] == all[b - 1]);
            } else if a == i {
                assert(after[b] == all[b - 1]);
                if b - 1 > i {
                    text::lemma_before_transitive(name@, all[i as int], all[b - 1]);
                }
            } else {
                assert(after[a] == all[a - 1] && after[b] == all[b - 1]);
            }
        }
        assert forall|s: Seq<char>| #[trigger] after.contains(s) <==> all.contains(s) || s
            == name@ by {
            if all.contains(s) {
                let k = choose|k: int| 0 <= k < all.len() && all[k] == s;
                if k < i {
                    assert(after[k] == s);
                } else {
                    assert(after[k + 1] == s);
                }
            }
            if s == name@ {
                assert(after[i as int] == s);
            }
            if after.contains(s) {
                let k = choose|k: int| 0 <= k < after.len() && after[k] == s;
                if k < i {
                    assert(all[k] == s);
                } else if k > i {
                    assert(all[k - 1] == s);
                }
            }
        }
    }
}

impl SparkSnapshot {
    /// Unique model names the discovered engines serve, in ascending order.
    pub fn models(&self) -> (r: Vec<String>)
        ensures
            climbing(text::views(r@)),
            forall|s: Seq<char>| #[trigger]
                text::views(r@).contains(s) <==> s.len() > 0 && served(
                    engine_rows(self@.agents),
                    s,
                ),
    {
        let rows = self.engines();
        let ghost all = engine_rows(self@.agents);
        let mut out: Vec<String> = Vec::new();
        let mut i: usize = 0;
        assert(text::views(out@) =~= Seq::empty());
        while i < rows.len()
            invariant
                i <= rows@.len(),
                all == row_views(rows@),
                climbing(text::views(out@)),
                forall|s: Seq<char>| #[trigger]
                    text::views(out@).contains(s) <==> s.len() > 0 && served(
                        all.take(i as int),
                        s,
                    ),
            decreases rows@.len() - i,
        {
            let engine = rows[i].1;
            let ghost here = all.take(i as int);
            let ghost next = all.take(i + 1);
            let ghost models = engine@.models;
            assert(all[i as int].1 == engine@);
            let mut k: usize = 0;
            while k < engine.models.len()
                invariant
                    k <= engine.models@.len(),
                    models == text::views(engine.models@),
                    climbing(text::views(out@)),
                    forall|s: Seq<char>| #[trigger]
                        text::views(out@).contains(s) <==> s.len() > 0 && (served(here, s)
                            || models.take(k as int).contains(s)),
                decreases engine.models@.len() - k,
            {
                let ghost before = text::views(out@);
                let name = engine.models[k].as_str();
                if !text::is_empty(name) {
                    add_name(&mut out, name);
                }
                proof {
                    let later = text::views(out@);
                    let shorter = models.take(k as int);
                    let longer = models.take(k + 1);
                    assert forall|s: Seq<char>| #[trigger] later.contains(s) <==> s.len() > 0 && (
                    served(here, s) || longer.contains(s)) by {
                        assert(before.contains(s) <==> s.len() > 0 && (served(here, s)
                            || shorter.contains(s)));
                        assert(models[k as int] == name@);
                        if shorter.contains(s) {
                            let j = choose|j: int|
                                0 <= j < shorter.len() && shorter[j]
                                    == s;
                            assert(longer[j] == s);
                        }
                        if s == name@ {
                            assert(longer[k as int] == s);
                        }
                        if longer.contains(s) {
                            let j = choose|j: int|
                                0 <= j < longer.len() && longer[j] == s;
                            if j < k {
                                assert(shorter[j] == s);
                            }
                        }
                    }
                }
                k += 1;
            }
            proof {
                assert(models.take(models.len() as int) =~= models);
                assert forall|s: Seq<char>| #[trigger] text::views(out@).contains(s) <==> s.len()
                    > 0 && served(next, s) by {
                    if served(here, s) {
                        let j = choose|j: int|
                            0 <= j < here.len() && (#[trigger] here[j]).1.models.contains(s);
                        assert(next[j] == here[j]);
                    }
                    if models.contains(s) {
                        assert(next[i as int].1.models.contains(s));
                    }
                    if served(next, s) {
                        let j = choose|j: int|
                            0 <= j < next.len() && (#[trigger] next[j]).1.models.contains(s);
                        if j < i {
                            assert(here[j] == next[j]);
                        }
                    }
                }
            }
            i += 1;
        }
        assert(all.take(all.len() as int) =~= all);
        out
    }
}

// ---------------------------------------------------------------- lines

/// `name: kind:port (models, Metriken)`.
pub open spec fn line_of(row: (Agent, Engine)) -> Seq<char> {
    let (agent, engine) = row;
    let models = if engine.models.len() == 0 {
        "Modelle unbekannt"@
    } else if engine.models.len() == 1 {
        engine.models[0]
    } else {
        text::decimal(engine.models.len()) + " Modelle"@
    };
    spark::display_name_of(agent) + ": "@ + spark::engine_label(engine) + " ("@ + models + (
    if engine.has_metrics {
        ", Metriken"@
    } else {
        ""@
    }) + ")"@
}

/// Like `line_of`, with the full endpoint and every model.
pub open spec fn detail_of(row: (Agent, Engine)) -> Seq<char> {
    let (agent, engine) = row;
    let models = if engine.models.len() == 0 {
        "Modelle unbekannt"@
    } else {
        text::joined(engine.models, ", "@)
    };
    spark::display_name_of(agent) + ": "@ + engine.endpoint + " · "@ + spark::engine_label(engine)
        + " · "@ + models + (if engine.has_metrics {
        " · Metriken"@
    } else {
        ""@
    })
}

fn engine_line(agent: &AgentState, engine: &EngineInfo) -> (r: String)
    ensures
        r@ == line_of((agent@, engine@)),
{
    let n: usize = engine.models.len();
    assert(engine@.models.len() == n);
    let models = if n == 0 {
        text::copy("Modelle unbekannt")
    } else if n == 1 {
        text::copy(engine.models[0].as_str())
    } else {
        let count = text::from_u64(n as u64);
        text::cat2(count.as_str(), " Modelle")
    };
    let name = agent.display_name();
    let label = engine.label();
    let mut out = text::cat5(name.as_str(), ": ", label.as_str(), " (", models.as_str());
    if engine.has_metrics {
        out.append(", Metriken");
    } else {
        out.append("");
    }
    out.append(")");
    out
}

fn engine_detail(agent: &AgentState, engine: &EngineInfo) -> (r: String)
    ensures
        r@ == detail_of((agent@, engine@)),
{
    assert(engine@.models.len() == engine.models@.len());
    let models = if engine.models.len() == 0 {
        text::copy("Modelle unbekannt")
    } else {
        text::join(&engine.models, ", ")
    };
    let name = agent.display_name();
    let label = engine.label();
    let mut out = text::cat5(
        name.as_str(),
        ": ",
        engine.endpoint.as_str(),
        " · ",
        label.as_str(),
    );
    out.append(" · ");
    out.append(models.as_str());
    if engine.has_metrics {
        out.append(" · Metriken");
    } else {
        out.append("");
    }
    out
}

impl SparkSnapshot {
    /// One readable line per discovered engine.
    pub fn engine_lines(&self) -> (r: Vec<String>)
        ensures
            text::views(r@) == engine_rows(self@.agents).map_values(
                |row: (Agent, Engine)| line_of(row),
            ),
    {
        let rows = self.engines();
        let ghost all = engine_rows(self@.agents);
        let mut out: Vec<String> = Vec::new();
        let mut i: usize = 0;
        while i < rows.len()
            invariant
                i <= rows@.len(),
                all == row_views(rows@),
                out@.len() == i,
                forall|k: int| 0 <= k < i ==> (#[trigger] out@[k])@ == line_of(all[k]),
            decreases rows@.len() - i,
        {
            assert(all[i as int] == (rows@[i as int].0@, rows@[i as int].1@));
            out.push(engine_line(rows[i].0, rows[i].1));
            i += 1;
        }
        assert(text::views(out@) =~= all.map_values(|row: (Agent, Engine)| line_of(row)));
        out
    }

    /// Like `engine_lines`, but with the full endpoint for the settings page.
    pub fn engine_details(&self) -> (r: Vec<String>)
        ensures
            text::views(r@) == engine_rows(self@.agents).map_values(
                |row: (Agent, Engine)| detail_of(row),
            ),
    {
        let rows = self.engines();
        let ghost all = engine_rows(self@.agents);
        let mut out: Vec<String> = Vec::new();
        let mut i: usize = 0;
        while i < rows.len()
            invariant
                i <= rows@.len(),
                all == row_views(rows@),
                out@.len() == i,
                forall|k: int| 0 <= k < i ==> (#[trigger] out@[k])@ == detail_of(all[k]),
            decreases rows@.len() - i,
        {
            assert(all[i as int] == (rows@[i as int].0@, rows@[i as int].1@));
            out.push(engine_detail(rows[i].0, rows[i].1));
            i += 1;
        }
        assert(text::views(out@) =~= all.map_values(|row: (Agent, Engine)| detail_of(row)));
        out
    }
}

// ---------------------------------------------------------------- versions

/// A node whose agent version differs from the shipped one: name, target,
/// reported version, and whether an update is offered.
pub open spec fn mismatch_of(agent: Agent) -> Option<(Seq<char>, Seq<char>, Seq<char>, bool)> {
    let state = install::version_state(agent.version, install::AGENT_VERSION@);
    if !agent.online {
        None
    } else if state == AgentVersionState::Outdated {
        Some((spark::display_name_of(agent), agent.label, agent.version, true))
    } else if state == AgentVersionState::AppletOutdated {
        Some((spark::display_name_of(agent), agent.label, agent.version, false))
    } else {
        None
    }
}

pub open spec fn mismatches_of(agents: Seq<Agent>) -> Seq<(Seq<char>, Seq<char>, Seq<char>, bool)>
    decreases agents.len(),
{
    if agents.len() == 0 {
        Seq::empty()
    } else {
        let rest = mismatches_of(agents.drop_last());
        match mismatch_of(agents.last()) {
            Some(m) => rest.push(m),
            None => rest,
        }
    }
}

pub open spec fn mismatch_views(list: Seq<(String, String, String, bool)>) -> Seq<
    (Seq<char>, Seq<char>, Seq<char>, bool),
> {
    list.map_values(|m: (String, String, String, bool)| (m.0@, m.1@, m.2@, m.3))
}

/// The nodes that should be updated, in the order in which they are configured.
pub open spec fn outdated_of(agents: Seq<Agent>) -> Seq<Agent>
    decreases agents.len(),
{
    if agents.len() == 0 {
        Seq::empty()
    } else {
        let rest = outdated_of(agents.drop_last());
        if mismatch_of(agents.last()) matches Some(m) && m.3 {
            rest.push(agents.last())
        } else {
            rest
        }
    }
}

/// The nodes that were seen most recently come first, equally young ones in
/// their order.
pub open spec fn by_age(agents: Seq<Agent>) -> Seq<order::Place> {
    agents.map_values(
        |a: Agent|
            (order::Place { rank: ieee::rank(a.age_s), name: Seq::empty(), number: 0 }),
    )
}

/// The nodes that should be updated, most recently seen first: name, target and
/// reported version.
pub open spec fn outdated_in(agents: Seq<Agent>) -> Seq<(Seq<char>, Seq<char>, Seq<char>)> {
    let list = outdated_of(agents);
    order::arrangement(by_age(list)).map_values(
        |i: int| (spark::display_name_of(list[i]), list[i].label, list[i].version),
    )
}

/// The nodes at the given places.
pub open spec fn places_of(agents: Seq<Agent>, found: Seq<usize>) -> Seq<Agent> {
    found.map_values(|i: usize| agents[i as int])
}

pub open spec fn outdated_views(list: Seq<(String, String, String)>) -> Seq<
    (Seq<char>, Seq<char>, Seq<char>),
> {
    list.map_values(|m: (String, String, String)| (m.0@, m.1@, m.2@))
}

impl SparkSnapshot {
    /// Nodes whose agent version differs from the one this applet ships.
    ///
    /// Gives `(name, target, reported version, needs update)`; the last is false
    /// when the agent is newer than the applet.
    pub fn version_mismatches(&self) -> (r: Vec<(String, String, String, bool)>)
        ensures
            mismatch_views(r@) == mismatches_of(self@.agents),
    {
        let ghost all = self@.agents;
        let mut out: Vec<(String, String, String, bool)> = Vec::new();
        let mut i: usize = 0;
        assert(all.take(0) =~= Seq::empty());
        assert(mismatch_views(out@) =~= Seq::empty());
        while i < self.agents.len()
            invariant
                i <= self.agents@.len(),
                all == spark::agent_views(self.agents@),
                mismatch_views(out@) == mismatches_of(all.take(i as int)),
            decreases self.agents@.len() - i,
        {
            let ghost before = out@;
            assert(all.take(i + 1).drop_last() =~= all.take(i as int));
            assert(all.take(i + 1).last() == self.agents@[i as int]@);
            let agent = &self.agents[i];
            if agent.online {
                let state = install::agent_version_state(agent.version.as_str());
                if state == AgentVersionState::Outdated || state
                    == AgentVersionState::AppletOutdated {
                    let row = (
                        agent.display_name(),
                        text::copy(agent.label.as_str()),
                        text::copy(agent.version.as_str()),
                        state == AgentVersionState::Outdated,
                    );
                    out.push(row);
                    assert(mismatch_views(out@) =~= mismatch_views(before).push(
                        (row.0@, row.1@, row.2@, row.3),
                    ));
                }
            }
            i += 1;
        }
        assert(all.take(all.len() as int) =~= all);
        out
    }

    /// Nodes that should be updated, most recently seen first.
    pub fn outdated_agents(&self) -> (r: Vec<(String, String, String)>)
        ensures
            outdated_views(r@) == outdated_in(self@.agents),
    {
        let found = self.outdated_places();
        let keys = self.ages_of(&found);
        let order = order::arrange(&keys);
        let ghost list = outdated_of(self@.agents);
        let ghost all = outdated_in(self@.agents);
        assert(order::indices(order@).len() == order@.len());
        assert(list.len() == found@.len());
        let mut out: Vec<(String, String, String)> = Vec::new();
        let mut i: usize = 0;
        assert(outdated_views(out@) =~= all.take(0));
        while i < order.len()
            invariant
                i <= order@.len() == found@.len() == all.len(),
                list == outdated_of(self@.agents),
                all == outdated_in(self@.agents),
                order::indices(order@) == order::arrangement(by_age(list)),
                forall|k: int| 0 <= k < order@.len() ==> order@[k] < found@.len(),
                forall|k: int| 0 <= k < found@.len() ==> found@[k] < self.agents@.len(),
                list == places_of(self@.agents, found@),
                outdated_views(out@) == all.take(i as int),
            decreases order@.len() - i,
        {
            let ghost before = out@;
            assert(order::indices(order@)[i as int] == order@[i as int]);
            assert(list[order@[i as int] as int] == self.agents@[found@[order@[i as int] as int] as int]@);
            let agent = &self.agents[found[order[i]]];
            let row = (
                agent.display_name(),
                text::copy(agent.label.as_str()),
                text::copy(agent.version.as_str()),
            );
            out.push(row);
            assert(outdated_views(out@) =~= outdated_views(before).push((row.0@, row.1@, row.2@)));
            assert(all.take(i + 1) =~= all.take(i as int).push(all[i as int]));
            i += 1;
        }
        assert(all.take(all.len() as int) =~= all);
        out
    }

    /// Where the nodes stand that should be updated.
    fn outdated_places(&self) -> (r: Vec<usize>)
        ensures
            forall|k: int| 0 <= k < r@.len() ==> r@[k] < self.agents@.len(),
            places_of(self@.agents, r@) == outdated_of(self@.agents),
    {
        let ghost all = self@.agents;
        let mut out: Vec<usize> = Vec::new();
        let mut i: usize = 0;
        assert(all.take(0) =~= Seq::empty());
        assert(places_of(all, out@) =~= Seq::empty());
        while i < self.agents.len()
            invariant
                i <= self.agents@.len(),
                all == spark::agent_views(self.agents@),
                forall|k: int| 0 <= k < out@.len() ==> out@[k] < self.agents@.len(),
                places_of(all, out@) == outdated_of(all.take(i as int)),
            decreases self.agents@.len() - i,
        {
            let ghost before = out@;
            assert(all.take(i + 1).drop_last() =~= all.take(i as int));
            assert(all.take(i + 1).last() == self.agents@[i as int]@);
            let agent = &self.agents[i];
            if agent.online && install::agent_version_state(agent.version.as_str())
                == AgentVersionState::Outdated {
                out.push(i);
                assert(places_of(all, out@) =~= places_of(all, before).push(all[i as int]));
            }
            i += 1;
        }
        assert(all.take(all.len() as int) =~= all);
        out
    }

    /// The keys by which nodes are ordered after their age.
    fn ages_of(&self, found: &Vec<usize>) -> (r: Vec<order::Key>)
        requires
            forall|k: int| 0 <= k < found@.len() ==> found@[k] < self.agents@.len(),
        ensures
            order::places(r@) == by_age(places_of(self@.agents, found@)),
            r@.len() == found@.len(),
    {
        let ghost all = by_age(places_of(self@.agents, found@));
        let mut keys: Vec<order::Key> = Vec::new();
        let mut i: usize = 0;
        assert(order::places(keys@) =~= all.take(0));
        while i < found.len()
            invariant
                i <= found@.len() == all.len(),
                all == by_age(places_of(self@.agents, found@)),
                forall|k: int| 0 <= k < found@.len() ==> found@[k] < self.agents@.len(),
                order::places(keys@) == all.take(i as int),
                keys@.len() == i,
            decreases found@.len() - i,
        {
            let ghost before = keys@;
            let nothing = String::new();
            assert(nothing@ =~= Seq::empty());
            let agent = &self.agents[found[i]];
            keys.push(
                order::Key { rank: ieee::position(agent.age_s) as i128, name: nothing, number: 0 },
            );
            assert(places_of(self@.agents, found@)[i as int]
                == self.agents@[found@[i as int] as int]@);
            assert(order::places(keys@) =~= order::places(before).push(all[i as int]));
            assert(all.take(i + 1) =~= all.take(i as int).push(all[i as int]));
            i += 1;
        }
        assert(all.take(all.len() as int) =~= all);
        keys
    }
}

/// A node that runs the shipped version is never offered an update.
pub proof fn current_agents_need_no_update(agent: Agent)
    requires
        install::version_order(
            text::trimmed(agent.version),
            text::trimmed(install::AGENT_VERSION@),
        ) == 0,
    ensures
        mismatch_of(agent) is None,
{
}

// ---------------------------------------------------------------- warnings

/// One warning: a finished line, or a hot GPU whose temperature, as
/// single-precision bits, is still to be written out.
#[derive(Debug)]
pub enum Warning {
    Line(String),
    Hot { name: String, temp_c: u32 },
}

/// A warning as characters.
pub enum Alert {
    Line(Seq<char>),
    Hot { name: Seq<char>, temp_c: u32 },
}

impl View for Warning {
    type V = Alert;

    open spec fn view(&self) -> Alert {
        match self {
            Warning::Line(s) => Alert::Line(s@),
            Warning::Hot { name, temp_c } => Alert::Hot { name: name@, temp_c: *temp_c },
        }
    }
}

pub open spec fn alerts(list: Seq<Warning>) -> Seq<Alert> {
    list.map_values(|w: Warning| w@)
}

impl Warning {
    /// The text of a warning; `degrees` is the temperature written out.
    pub fn text(&self, degrees: &str) -> (r: String)
        ensures
            r@ == (match self@ {
                Alert::Line(s) => s,
                Alert::Hot { name, .. } => name + ": GPU "@ + degrees@ + " °C"@,
            }),
    {
        match self {
            Warning::Line(s) => text::copy(s.as_str()),
            Warning::Hot { name, .. } => text::cat4(name.as_str(), ": GPU ", degrees, " °C"),
        }
    }
}

/// What the engine gives reason to warn of.
pub open spec fn engine_alerts(agents: Seq<Agent>) -> Seq<Alert> {
    match spark::first_where(agents, |a: Agent| a.engine.available) {
        Some(agent) => {
            let first = if agent.engine.preemptions_total > 0 {
                seq![
                    Alert::Line(
                        text::decimal(agent.engine.preemptions_total as nat)
                            + " verdrängte Anfragen (Präemptionen)"@,
                    ),
                ]
            } else {
                Seq::empty()
            };
            if agent.engine.waiting > 0 {
                first.push(
                    Alert::Line(
                        text::decimal(agent.engine.waiting as nat)
                            + " Anfrage(n) warten in der Schlange"@,
                    ),
                )
            } else {
                first
            }
        },
        None => Seq::empty(),
    }
}

/// The nodes whose GPU is too hot.
pub open spec fn hot_alerts(agents: Seq<Agent>) -> Seq<Alert>
    decreases agents.len(),
{
    if agents.len() == 0 {
        Seq::empty()
    } else {
        let rest = hot_alerts(agents.drop_last());
        let agent = agents.last();
        if spark::is_hot(agent) {
            rest.push(
                Alert::Hot {
                    name: spark::display_name_of(agent),
                    temp_c: agent.node.gpu_temp_c,
                },
            )
        } else {
            rest
        }
    }
}

impl SparkSnapshot {
    /// Threshold warnings for the popup, most severe first.
    pub fn warnings(&self) -> (r: Vec<Warning>)
        ensures
            alerts(r@) == engine_alerts(self@.agents) + hot_alerts(self@.agents),
    {
        let ghost all = self@.agents;
        let mut out: Vec<Warning> = Vec::new();
        assert(alerts(out@) =~= Seq::empty());
        if let Some(agent) = self.engine_agent() {
            if agent.engine.preemptions_total > 0 {
                let count = text::from_u64(agent.engine.preemptions_total);
                out.push(
                    Warning::Line(
                        text::cat2(count.as_str(), " verdrängte Anfragen (Präemptionen)"),
                    ),
                );
            }
            let ghost before = out@;
            if agent.engine.waiting > 0 {
                let count = text::from_u64(agent.engine.waiting as u64);
                out.push(
                    Warning::Line(
                        text::cat2(count.as_str(), " Anfrage(n) warten in der Schlange"),
                    ),
                );
            }
            assert(alerts(out@) =~= engine_alerts(all));
        }
        let ghost first = engine_alerts(all);
        assert(alerts(out@) =~= first);
        let mut i: usize = 0;
        assert(all.take(0) =~= Seq::empty());
        assert(alerts(out@) =~= first + hot_alerts(all.take(0)));
        while i < self.agents.len()
            invariant
                i <= self.agents@.len(),
                all == spark::agent_views(self.agents@),
                alerts(out@) == first + hot_alerts(all.take(i as int)),
            decreases self.agents@.len() - i,
        {
            let ghost before = out@;
            assert(all.take(i + 1).drop_last() =~= all.take(i as int));
            assert(all.take(i + 1).last() == self.agents@[i as int]@);
            let agent = &self.agents[i];
            if self.node_is_hot(agent) {
                let warning = Warning::Hot {
                    name: agent.display_name(),
                    temp_c: agent.node.gpu_temp_c,
                };
                out.push(warning);
                assert(alerts(out@) =~= alerts(before).push(warning@));
                assert(alerts(out@) =~= first + hot_alerts(all.take(i + 1)));
            }
            i += 1;
        }
        assert(all.take(all.len() as int) =~= all);
        out
    }
}

/// The servers of nodes that are online are listed, those with the metrics in use
/// first; each keeps its place among its kind.
pub proof fn servers_of_online_nodes_are_listed(agents: Seq<Agent>, agent: Agent, engines: Seq<Engine>, engine: Engine)
    ensures
        engine_rows(agents) == engines_where(agents, true) + engines_where(agents, false),
        !agent.online ==> engine_rows(agents.push(agent)) == engine_rows(agents),
        agent.online ==> engines_where(agents.push(agent), true) == engines_where(agents, true)
            + engines_with(agent, agent.engines, true),
        agent.online ==> engines_where(agents.push(agent), false) == engines_where(agents, false)
            + engines_with(agent, agent.engines, false),
        engine.primary ==> engines_with(agent, engines.push(engine), true) == engines_with(
            agent,
            engines,
            true,
        ).push((agent, engine)),
        engine.primary ==> engines_with(agent, engines.push(engine), false) == engines_with(
            agent,
            engines,
            false,
        ),
        !engine.primary ==> engines_with(agent, engines.push(engine), false) == engines_with(
            agent,
            engines,
            false,
        ).push((agent, engine)),
        !engine.primary ==> engines_with(agent, engines.push(engine), true) == engines_with(
            agent,
            engines,
            true,
        ),
        engine_rows(Seq::empty()).len() == 0,
        engines_with(agent, Seq::empty(), true).len() == 0,
        engines_with(agent, Seq::empty(), false).len() == 0,
{
    assert(agents.push(agent).drop_last() =~= agents);
    assert(engines.push(engine).drop_last() =~= engines);
}

/// The line of a server names the node, the kind, the port and the model, or how
/// many models there are, and whether it has metrics.
pub proof fn lines_describe_servers(agent: Agent, engine: Engine)
    ensures
        ({
            let head = spark::display_name_of(agent) + ": "@ + (engine.kind + ":"@ + text::decimal(
                engine.port as nat,
            )) + " ("@;
            let tail = if engine.has_metrics {
                ", Metriken"@
            } else {
                ""@
            };
            &&& engine.models.len() == 1 ==> line_of((agent, engine)) == head + engine.models[0]
                + tail + ")"@
            &&& engine.models.len() == 0 ==> line_of((agent, engine)) == head
                + "Modelle unbekannt"@ + tail + ")"@
            &&& engine.models.len() > 1 ==> line_of((agent, engine)) == head + (text::decimal(
                engine.models.len(),
            ) + " Modelle"@) + tail + ")"@
        }),
        ({
            let head = spark::display_name_of(agent) + ": "@ + engine.endpoint + " · "@ + (
            engine.kind + ":"@ + text::decimal(engine.port as nat)) + " · "@;
            let tail = if engine.has_metrics {
                " · Metriken"@
            } else {
                ""@
            };
            &&& engine.models.len() > 0 ==> detail_of((agent, engine)) == head + text::joined(
                engine.models,
                ", "@,
            ) + tail
            &&& engine.models.len() == 0 ==> detail_of((agent, engine)) == head
                + "Modelle unbekannt"@ + tail
        }),
{
}

/// A node is reported exactly where it is online with another version, and an
/// update is offered exactly where its version is older.
pub proof fn other_versions_are_reported(agent: Agent)
    ensures
        ({
            let state = install::version_state(agent.version, "2.2.0\n"@);
            &&& mismatch_of(agent) is Some <==> agent.online && (state is Outdated
                || state is AppletOutdated)
            &&& mismatch_of(agent) matches Some(m) ==> m == (
                spark::display_name_of(agent),
                agent.label,
                agent.version,
                state is Outdated,
            )
        }),
{
}

/// The reported nodes keep their order.
pub proof fn reports_keep_their_order(agents: Seq<Agent>, agent: Agent)
    ensures
        mismatches_of(Seq::empty()).len() == 0,
        mismatch_of(agent) is None ==> mismatches_of(agents.push(agent)) == mismatches_of(agents),
        mismatch_of(agent) matches Some(m) ==> mismatches_of(agents.push(agent)) == mismatches_of(
            agents,
        ).push(m),
{
    assert(agents.push(agent).drop_last() =~= agents);
}

/// The nodes to update are those that are online with an older version.
pub proof fn older_nodes_are_to_be_updated(agents: Seq<Agent>)
    ensures
        outdated_of(agents) == agents.filter(
            |a: Agent|
                a.online && install::version_state(a.version, "2.2.0\n"@)
                    == AgentVersionState::Outdated,
        ),
    decreases agents.len(),
{
    reveal(Seq::filter);
    if agents.len() > 0 {
        older_nodes_are_to_be_updated(agents.drop_last());
    }
}

/// They come with the youngest first, each with its name, its target and its
/// version, and none is left out.
pub proof fn the_youngest_comes_first(agents: Seq<Agent>, i: int, j: int)
    requires
        0 <= i < j < outdated_of(agents).len(),
    ensures
        outdated_in(agents).len() == outdated_of(agents).len(),
        ({
            let list = outdated_of(agents);
            let order = order::arrangement(by_age(list));
            let first = list[order[i]];
            let second = list[order[j]];
            &&& 0 <= order[i] < list.len() && 0 <= order[j] < list.len() && order[i] != order[j]
            &&& outdated_in(agents)[i] == (
                spark::display_name_of(first),
                first.label,
                first.version,
            )
            &&& outdated_in(agents)[j] == (
                spark::display_name_of(second),
                second.label,
                second.version,
            )
            &&& ieee::rank(first.age_s) <= ieee::rank(second.age_s)
        }),
{
    let list = outdated_of(agents);
    let keys = by_age(list);
    order::arrangement_sorts(keys);
    let order = order::arrangement(keys);
    order::lemma_less(keys[order[i]], keys[order[j]], keys[order[j]]);
    assert(0 <= order[i] < list.len() && 0 <= order[j] < list.len());
    assert(!order::less(keys[order[j]], keys[order[i]]));
}

/// The engine gives reason to warn where requests were pushed out or wait, in
/// this order; without an engine there is none.
pub proof fn engines_give_warnings(agents: Seq<Agent>)
    ensures
        match spark::first_where(agents, |a: Agent| a.engine.available) {
            None => engine_alerts(agents).len() == 0,
            Some(agent) => {
                let lost = Alert::Line(
                    text::decimal(agent.engine.preemptions_total as nat)
                        + " verdrängte Anfragen (Präemptionen)"@,
                );
                let queued = Alert::Line(
                    text::decimal(agent.engine.waiting as nat)
                        + " Anfrage(n) warten in der Schlange"@,
                );
                &&& agent.engine.preemptions_total > 0 && agent.engine.waiting > 0
                    ==> engine_alerts(agents) == seq![lost, queued]
                &&& agent.engine.preemptions_total > 0 && agent.engine.waiting == 0
                    ==> engine_alerts(agents) == seq![lost]
                &&& agent.engine.preemptions_total == 0 && agent.engine.waiting > 0
                    ==> engine_alerts(agents) == seq![queued]
                &&& agent.engine.preemptions_total == 0 && agent.engine.waiting == 0
                    ==> engine_alerts(agents).len() == 0
            },
        },
{
    if let Some(agent) = spark::first_where(agents, |a: Agent| a.engine.available) {
        let lost = Alert::Line(
            text::decimal(agent.engine.preemptions_total as nat)
                + " verdrängte Anfragen (Präemptionen)"@,
        );
        let queued = Alert::Line(
            text::decimal(agent.engine.waiting as nat) + " Anfrage(n) warten in der Schlange"@,
        );
        if agent.engine.preemptions_total > 0 && agent.engine.waiting > 0 {
            assert(engine_alerts(agents) =~= seq![lost, queued]);
        } else if agent.engine.waiting > 0 {
            assert(engine_alerts(agents) =~= seq![queued]);
        }
    }
}

/// A node that is online with a graphics card above 80 degrees gives reason to
/// warn, with its name and its temperature; no other does.
pub proof fn hot_nodes_give_warnings(agents: Seq<Agent>, agent: Agent)
    ensures
        hot_alerts(Seq::empty()).len() == 0,
        agent.online && agent.node.gpu_available && ieee::below(0x42a0_0000, agent.node.gpu_temp_c)
            ==> hot_alerts(agents.push(agent)) == hot_alerts(agents).push(
            Alert::Hot { name: spark::display_name_of(agent), temp_c: agent.node.gpu_temp_c },
        ),
        !(agent.online && agent.node.gpu_available && ieee::below(
            0x42a0_0000,
            agent.node.gpu_temp_c,
        )) ==> hot_alerts(agents.push(agent)) == hot_alerts(agents),
{
    assert(agents.push(agent).drop_last() =~= agents);
}

} // verus!
