//! Agents and world state: identifiers, per-agent records, the global
//! snapshot, and the sparse diff overlay the planner branches on.
//!
//! A [`Diff`] holds at most one override per agent; lookups fall back to the
//! initial snapshot when an agent has no override.  The spec functions here
//! define that composed view once, and every executable lookup and update is
//! tied to them.

use vstd::prelude::*;

use crate::constants::CONVERSION_CAP;
use crate::map::in_bounds;
use crate::map::Coord;
use crate::map::Grid;

verus! {

/// The identifier of an agent.
#[derive(Clone, Copy, Debug, Hash, PartialEq, Eq, Structural)]
pub struct AgentId(pub u32);

/// What an agent currently plays.
#[derive(Clone, Copy, Debug, Hash, PartialEq, Eq, Structural)]
pub enum AgentType {
    Rock,
    Paper,
    Scissors,
}

impl AgentType {
    /// The type this one converts on contact.
    pub open spec fn spec_prey(self) -> AgentType {
        match self {
            AgentType::Rock => AgentType::Scissors,
            AgentType::Paper => AgentType::Rock,
            AgentType::Scissors => AgentType::Paper,
        }
    }

    /// The type this one is converted by on contact.
    pub open spec fn spec_predator(self) -> AgentType {
        match self {
            AgentType::Rock => AgentType::Paper,
            AgentType::Paper => AgentType::Scissors,
            AgentType::Scissors => AgentType::Rock,
        }
    }

    pub fn prey(self) -> (r: AgentType)
        ensures
            r == self.spec_prey(),
    {
        match self {
            AgentType::Rock => AgentType::Scissors,
            AgentType::Paper => AgentType::Rock,
            AgentType::Scissors => AgentType::Paper,
        }
    }

    pub fn predator(self) -> (r: AgentType)
        ensures
            r == self.spec_predator(),
    {
        match self {
            AgentType::Rock => AgentType::Paper,
            AgentType::Paper => AgentType::Scissors,
            AgentType::Scissors => AgentType::Rock,
        }
    }
}

/// One agent's record: its type, its cell, and how many conversions it has
/// scored (negative after having been converted itself).
#[derive(Clone, Copy, Debug, Hash, PartialEq, Eq, Structural)]
pub struct AgentState {
    pub ty: AgentType,
    pub location: Coord,
    pub conversions: i64,
}

/// The record is valid for the grid: on it, with a bounded counter.
pub open spec fn agent_ok(g: Grid, a: AgentState) -> bool {
    in_bounds(g, a.location) && -CONVERSION_CAP <= a.conversions <= CONVERSION_CAP
}

/// The agents of a snapshot, keyed by identifier.
pub type Agents = Vec<(AgentId, AgentState)>;

/// A frozen snapshot of the world.
#[derive(Debug)]
pub struct GlobalState {
    pub map: Grid,
    pub agents: Agents,
}

impl GlobalState {
    /// The snapshot's invariant: a well-formed grid and agents with strictly
    /// increasing identifiers (so each occurs once), every record valid.
    pub open spec fn wf(self) -> bool {
        &&& self.map.wf()
        &&& forall|i: int, j: int|
            0 <= i < j < self.agents@.len() ==> (#[trigger] self.agents@[i]).0.0 < (
            #[trigger] self.agents@[j]).0.0
        &&& forall|i: int|
            0 <= i < self.agents@.len() ==> agent_ok(self.map, (#[trigger] self.agents@[i]).1)
    }
}

/// Overrides accumulated along one path of the search tree: at most one entry
/// per agent, each a full replacement record.
#[derive(Debug)]
pub struct Diff {
    pub agents: Vec<(AgentId, AgentState)>,
}

impl Default for Diff {
    /// The empty diff: no overrides.
    fn default() -> (r: Diff)
        ensures
            r.agents@ == Seq::<(AgentId, AgentState)>::empty(),
    {
        Diff { agents: Vec::new() }
    }
}

/// The record of `agent` in `entries`, scanning front to back.
pub open spec fn find_agent(entries: Seq<(AgentId, AgentState)>, agent: AgentId) -> Option<
    AgentState,
>
    decreases entries.len(),
{
    if entries.len() == 0 {
        None
    } else if entries[0].0 == agent {
        Some(entries[0].1)
    } else {
        find_agent(entries.skip(1), agent)
    }
}

/// Whether `entries` holds a record of `agent`.
pub open spec fn spec_has_agent(entries: Seq<(AgentId, AgentState)>, agent: AgentId) -> bool {
    find_agent(entries, agent) is Some
}

/// The first entry located at `loc`, scanning front to back.
pub open spec fn find_at(entries: Seq<(AgentId, AgentState)>, loc: Coord) -> Option<
    (AgentId, AgentState),
>
    decreases entries.len(),
{
    if entries.len() == 0 {
        None
    } else if entries[0].1.location == loc {
        Some(entries[0])
    } else {
        find_at(entries.skip(1), loc)
    }
}

/// The first entry located at `loc` whose agent has no override in `dv`.
pub open spec fn find_at_not_overridden(
    entries: Seq<(AgentId, AgentState)>,
    dv: Seq<(AgentId, AgentState)>,
    loc: Coord,
) -> Option<(AgentId, AgentState)>
    decreases entries.len(),
{
    if entries.len() == 0 {
        None
    } else if entries[0].1.location == loc && !spec_has_agent(dv, entries[0].0) {
        Some(entries[0])
    } else {
        find_at_not_overridden(entries.skip(1), dv, loc)
    }
}

/// The composed record of `agent`: its override if it has one, else its record
/// in the initial snapshot.
pub open spec fn composed_get(s: GlobalState, dv: Seq<(AgentId, AgentState)>, agent: AgentId)
    -> Option<AgentState> {
    match find_agent(dv, agent) {
        Some(st) => Some(st),
        None => find_agent(s.agents@, agent),
    }
}

/// The agent can be looked up in the composed state.
pub open spec fn spec_present(
    s: GlobalState,
    dv: Seq<(AgentId, AgentState)>,
    agent: AgentId,
) -> bool {
    composed_get(s, dv, agent) is Some
}

/// The first composed occupant of `loc`: overrides are scanned first, then the
/// initial agents that have no override.
pub open spec fn composed_at(s: GlobalState, dv: Seq<(AgentId, AgentState)>, loc: Coord) -> Option<
    (AgentId, AgentState),
> {
    match find_at(dv, loc) {
        Some(p) => Some(p),
        None => find_at_not_overridden(s.agents@, dv, loc),
    }
}

/// The diff's invariant against a grid: one entry per agent, each valid.
pub open spec fn diff_ok(g: Grid, dv: Seq<(AgentId, AgentState)>) -> bool {
    &&& forall|i: int, j: int|
        0 <= i < j < dv.len() ==> (#[trigger] dv[i]).0 != (#[trigger] dv[j]).0
    &&& forall|i: int| 0 <= i < dv.len() ==> agent_ok(g, (#[trigger] dv[i]).1)
}

/// The pair of snapshot and overlay is well formed.
pub open spec fn spec_sane(s: GlobalState, dv: Seq<(AgentId, AgentState)>) -> bool {
    s.wf() && diff_ok(s.map, dv)
}

/// `dv` with the first record of `agent` replaced by `st`; unchanged if
/// `agent` has no record.
pub open spec fn set_agent(
    dv: Seq<(AgentId, AgentState)>,
    agent: AgentId,
    st: AgentState,
) -> Seq<(AgentId, AgentState)>
    decreases dv.len(),
{
    if dv.len() == 0 {
        dv
    } else if dv[0].0 == agent {
        seq![(agent, st)] + dv.skip(1)
    } else {
        seq![dv[0]] + set_agent(dv.skip(1), agent, st)
    }
}

/// `dv` with a record of `agent` guaranteed: if absent, its record in the
/// initial snapshot is appended.
pub open spec fn materialize(
    s: GlobalState,
    dv: Seq<(AgentId, AgentState)>,
    agent: AgentId,
) -> Seq<(AgentId, AgentState)> {
    if spec_has_agent(dv, agent) {
        dv
    } else {
        dv.push((agent, find_agent(s.agents@, agent).unwrap()))
    }
}

/// A replacement through [`materialize`]: the record of `agent` (seeded from
/// the initial snapshot if it had no override yet) is replaced by `st`.
pub open spec fn upsert(
    s: GlobalState,
    dv: Seq<(AgentId, AgentState)>,
    agent: AgentId,
    st: AgentState,
) -> Seq<(AgentId, AgentState)> {
    set_agent(materialize(s, dv, agent), agent, st)
}

/// A conversion counter increment, saturating at the cap.
pub open spec fn cap_inc(c: i64) -> i64 {
    if c < CONVERSION_CAP {
        (c + 1) as i64
    } else {
        c
    }
}

/// A conversion counter decrement, saturating at the cap.
pub open spec fn cap_dec(c: i64) -> i64 {
    if c > -CONVERSION_CAP {
        (c - 1) as i64
    } else {
        c
    }
}

/// If `agent` has no record, no entry carries its identifier.
pub proof fn lemma_absent_no_entry(entries: Seq<(AgentId, AgentState)>, agent: AgentId)
    requires
        find_agent(entries, agent) is None,
    ensures
        forall|i: int| 0 <= i < entries.len() ==> (#[trigger] entries[i]).0 != agent,
    decreases entries.len(),
{
    if entries.len() > 0 {
        lemma_absent_no_entry(entries.skip(1), agent);
        assert forall|i: int| 0 <= i < entries.len() implies (#[trigger] entries[i]).0
            != agent by {
            if i > 0 {
                assert(entries.skip(1)[i - 1] == entries[i]);
            }
        }
    }
}

/// A found record is one of the entries.
pub proof fn lemma_found_is_entry(entries: Seq<(AgentId, AgentState)>, agent: AgentId)
    requires
        find_agent(entries, agent) is Some,
    ensures
        exists|i: int|
            0 <= i < entries.len() && #[trigger] entries[i] == (
            agent,
            find_agent(entries, agent).unwrap(),
            ),
    decreases entries.len(),
{
    if entries[0].0 == agent {
        assert(entries[0] == (agent, find_agent(entries, agent).unwrap()));
    } else {
        lemma_found_is_entry(entries.skip(1), agent);
        let i = choose|i: int|
            0 <= i < entries.skip(1).len() && #[trigger] entries.skip(1)[i] == (
            agent,
            find_agent(entries.skip(1), agent).unwrap(),
            );
        assert(entries[i + 1] == entries.skip(1)[i]);
    }
}

/// What lookups see after a replacement: the new record under `agent`'s
/// identifier (if it had one), everything else untouched.
pub proof fn lemma_find_after_set(
    dv: Seq<(AgentId, AgentState)>,
    agent: AgentId,
    st: AgentState,
    x: AgentId,
)
    ensures
        set_agent(dv, agent, st).len() == dv.len(),
        find_agent(set_agent(dv, agent, st), x) == (if x == agent && spec_has_agent(dv, agent) {
            Some(st)
        } else {
            find_agent(dv, x)
        }),
        forall|i: int| 0 <= i < dv.len() ==> (#[trigger] set_agent(dv, agent, st)[i]).0 == dv[i].0,
        forall|i: int|
            0 <= i < dv.len() ==> (#[trigger] set_agent(dv, agent, st)[i]).1 == st || set_agent(
                dv,
                agent,
                st,
            )[i].1 == dv[i].1,
    decreases dv.len(),
{
    if dv.len() > 0 {
        let r = set_agent(dv, agent, st);
        if dv[0].0 == agent {
            assert(r == seq![(agent, st)] + dv.skip(1));
            assert(r.skip(1) =~= dv.skip(1));
            assert forall|i: int| 0 <= i < dv.len() implies (#[trigger] r[i]).0 == dv[i].0 by {
                if i > 0 {
                    assert(r[i] == dv.skip(1)[i - 1]);
                }
            }
        } else {
            lemma_find_after_set(dv.skip(1), agent, st, x);
            assert(r == seq![dv[0]] + set_agent(dv.skip(1), agent, st));
            assert(r.skip(1) =~= set_agent(dv.skip(1), agent, st));
            assert forall|i: int| 0 <= i < dv.len() implies (#[trigger] r[i]).0 == dv[i].0 by {
                if i > 0 {
                    assert(r[i] == set_agent(dv.skip(1), agent, st)[i - 1]);
                    assert(dv.skip(1)[i - 1] == dv[i]);
                }
            }
            assert forall|i: int| 0 <= i < dv.len() implies (#[trigger] r[i]).1 == st || r[i].1
                == dv[i].1 by {
                if i > 0 {
                    assert(r[i] == set_agent(dv.skip(1), agent, st)[i - 1]);
                    assert(dv.skip(1)[i - 1] == dv[i]);
                }
            }
        }
    }
}

/// What lookups see after appending a record for an agent that had none.
pub proof fn lemma_find_after_push(
    dv: Seq<(AgentId, AgentState)>,
    agent: AgentId,
    st: AgentState,
    x: AgentId,
)
    requires
        !spec_has_agent(dv, agent),
    ensures
        find_agent(dv.push((agent, st)), x) == (if x == agent {
            Some(st)
        } else {
            find_agent(dv, x)
        }),
    decreases dv.len(),
{
    let p = dv.push((agent, st));
    if dv.len() == 0 {
        assert(p.len() == 1);
        assert(p[0] == (agent, st));
        assert(p.skip(1).len() == 0);
        if x == agent {
            assert(p[0].0 == x);
            assert(find_agent(p, x) == Some(st));
        } else {
            assert(p[0].0 != x);
            assert(find_agent(p, x) == find_agent(p.skip(1), x));
            assert(find_agent(p.skip(1), x) is None);
        }
    } else {
        assert(dv[0].0 != agent);
        assert(!spec_has_agent(dv.skip(1), agent));
        lemma_find_after_push(dv.skip(1), agent, st, x);
        assert(p[0] == dv[0]);
        assert(p.skip(1) =~= dv.skip(1).push((agent, st)));
        assert(find_agent(p, x) == (if p[0].0 == x {
            Some(p[0].1)
        } else {
            find_agent(dv.skip(1).push((agent, st)), x)
        }));
        assert(find_agent(dv, x) == (if dv[0].0 == x {
            Some(dv[0].1)
        } else {
            find_agent(dv.skip(1), x)
        }));
    }
}

/// With pairwise distinct identifiers, any entry of `agent` is the one found.
pub proof fn lemma_unique_entry_found(entries: Seq<(AgentId, AgentState)>, i: int)
    requires
        forall|a: int, b: int|
            0 <= a < b < entries.len() ==> (#[trigger] entries[a]).0 != (#[trigger] entries[b]).0,
        0 <= i < entries.len(),
    ensures
        find_agent(entries, entries[i].0) == Some(entries[i].1),
    decreases entries.len(),
{
    if i > 0 {
        assert forall|a: int, b: int|
            0 <= a < b < entries.skip(1).len() implies (#[trigger] entries.skip(1)[a]).0 != (
        #[trigger] entries.skip(1)[b]).0 by {
            assert(entries.skip(1)[a] == entries[a + 1]);
            assert(entries.skip(1)[b] == entries[b + 1]);
        }
        assert(entries.skip(1)[i - 1] == entries[i]);
        lemma_unique_entry_found(entries.skip(1), i - 1);
        assert(entries[0].0 != entries[i].0);
    }
}

/// A record found at a location is an entry and does lie at that location.
pub proof fn lemma_find_at_is_entry(entries: Seq<(AgentId, AgentState)>, loc: Coord)
    requires
        find_at(entries, loc) is Some,
    ensures
        find_at(entries, loc).unwrap().1.location == loc,
        exists|i: int|
            0 <= i < entries.len() && #[trigger] entries[i] == find_at(entries, loc).unwrap(),
    decreases entries.len(),
{
    if entries[0].1.location == loc {
        assert(entries[0] == find_at(entries, loc).unwrap());
    } else {
        lemma_find_at_is_entry(entries.skip(1), loc);
        let i = choose|i: int|
            0 <= i < entries.skip(1).len() && #[trigger] entries.skip(1)[i] == find_at(
                entries.skip(1),
                loc,
            ).unwrap();
        assert(entries[i + 1] == entries.skip(1)[i]);
    }
}

/// A record found at a location among the non-overridden initial agents is an
/// initial entry, lies at that location, and has no override.
pub proof fn lemma_find_at_not_overridden_props(
    entries: Seq<(AgentId, AgentState)>,
    dv: Seq<(AgentId, AgentState)>,
    loc: Coord,
)
    requires
        find_at_not_overridden(entries, dv, loc) is Some,
    ensures
        find_at_not_overridden(entries, dv, loc).unwrap().1.location == loc,
        !spec_has_agent(dv, find_at_not_overridden(entries, dv, loc).unwrap().0),
        exists|i: int|
            0 <= i < entries.len() && #[trigger] entries[i] == find_at_not_overridden(
                entries,
                dv,
                loc,
            ).unwrap(),
    decreases entries.len(),
{
    if entries[0].1.location == loc && !spec_has_agent(dv, entries[0].0) {
        assert(entries[0] == find_at_not_overridden(entries, dv, loc).unwrap());
    } else {
        lemma_find_at_not_overridden_props(entries.skip(1), dv, loc);
        let i = choose|i: int|
            0 <= i < entries.skip(1).len() && #[trigger] entries.skip(1)[i]
                == find_at_not_overridden(entries.skip(1), dv, loc).unwrap();
        assert(entries[i + 1] == entries.skip(1)[i]);
    }
}

/// The occupant the composed lookup returns really lies at the queried
/// location, and its record is its composed record.
pub proof fn lemma_composed_at_props(
    s: GlobalState,
    dv: Seq<(AgentId, AgentState)>,
    loc: Coord,
)
    requires
        spec_sane(s, dv),
        composed_at(s, dv, loc) is Some,
    ensures
        composed_at(s, dv, loc).unwrap().1.location == loc,
        composed_get(s, dv, composed_at(s, dv, loc).unwrap().0) == Some(
            composed_at(s, dv, loc).unwrap().1,
        ),
    decreases dv.len(),
{
    let p = composed_at(s, dv, loc).unwrap();
    match find_at(dv, loc) {
        Some(_) => {
            lemma_find_at_is_entry(dv, loc);
            let i = choose|i: int| 0 <= i < dv.len() && #[trigger] dv[i] == p;
            lemma_unique_entry_found(dv, i);
        },
        None => {
            lemma_find_at_not_overridden_props(s.agents@, dv, loc);
            let i = choose|i: int| 0 <= i < s.agents@.len() && #[trigger] s.agents@[i] == p;
            assert forall|a: int, b: int|
                0 <= a < b < s.agents@.len() implies (#[trigger] s.agents@[a]).0 != (
            #[trigger] s.agents@[b]).0 by {
                assert(s.agents@[a].0.0 < s.agents@[b].0.0);
            }
            lemma_unique_entry_found(s.agents@, i);
        },
    }
}

/// Every composed record of a well-formed pair is valid for the grid.
pub proof fn lemma_composed_ok(s: GlobalState, dv: Seq<(AgentId, AgentState)>, x: AgentId)
    requires
        spec_sane(s, dv),
        composed_get(s, dv, x) is Some,
    ensures
        agent_ok(s.map, composed_get(s, dv, x).unwrap()),
{
    if find_agent(dv, x) is Some {
        lemma_found_is_entry(dv, x);
    } else {
        lemma_found_is_entry(s.agents@, x);
    }
}

/// Materializing an override changes no composed record, keeps the diff well
/// formed, and leaves the agent's record overridden with its composed value.
pub proof fn lemma_materialize_props(
    s: GlobalState,
    dv: Seq<(AgentId, AgentState)>,
    agent: AgentId,
)
    requires
        spec_present(s, dv, agent),
    ensures
        forall|x: AgentId|
            #[trigger] composed_get(s, materialize(s, dv, agent), x) == composed_get(s, dv, x),
        spec_has_agent(materialize(s, dv, agent), agent),
        find_agent(materialize(s, dv, agent), agent) == composed_get(s, dv, agent),
        spec_sane(s, dv) ==> diff_ok(s.map, materialize(s, dv, agent)),
{
    let m = materialize(s, dv, agent);
    if spec_has_agent(dv, agent) {
    } else {
        let seeded = find_agent(s.agents@, agent).unwrap();
        assert forall|x: AgentId| #[trigger] composed_get(s, m, x) == composed_get(s, dv, x) by {
            lemma_find_after_push(dv, agent, seeded, x);
        }
        lemma_find_after_push(dv, agent, seeded, agent);
        if spec_sane(s, dv) {
            lemma_absent_no_entry(dv, agent);
            lemma_found_is_entry(s.agents@, agent);
            assert forall|i: int, j: int|
                0 <= i < j < m.len() implies (#[trigger] m[i]).0 != (#[trigger] m[j]).0 by {
                if j < dv.len() {
                    assert(m[i] == dv[i] && m[j] == dv[j]);
                } else {
                    assert(m[i] == dv[i] && m[j] == (agent, seeded));
                }
            }
            assert forall|i: int| 0 <= i < m.len() implies agent_ok(s.map, (#[trigger] m[i]).1) by {
                if i < dv.len() {
                    assert(m[i] == dv[i]);
                }
            }
        }
    }
}

/// What the composed view sees after an upsert: the new record under the
/// agent's identifier, everything else untouched — and the diff stays well
/// formed if the new record is valid.
pub proof fn lemma_upsert_props(
    s: GlobalState,
    dv: Seq<(AgentId, AgentState)>,
    agent: AgentId,
    st: AgentState,
)
    requires
        spec_present(s, dv, agent),
    ensures
        forall|x: AgentId|
            #[trigger] composed_get(s, upsert(s, dv, agent, st), x) == (if x == agent {
                Some(st)
            } else {
                composed_get(s, dv, x)
            }),
        spec_sane(s, dv) && agent_ok(s.map, st) ==> diff_ok(s.map, upsert(s, dv, agent, st)),
{
    let m = materialize(s, dv, agent);
    let u = upsert(s, dv, agent, st);
    lemma_materialize_props(s, dv, agent);
    assert forall|x: AgentId|
        #[trigger] composed_get(s, u, x) == (if x == agent {
            Some(st)
        } else {
            composed_get(s, dv, x)
        }) by {
        lemma_find_after_set(m, agent, st, x);
        assert(composed_get(s, m, x) == composed_get(s, dv, x));
    }
    if spec_sane(s, dv) && agent_ok(s.map, st) {
        lemma_find_after_set(m, agent, st, agent);
        assert forall|i: int, j: int|
            0 <= i < j < u.len() implies (#[trigger] u[i]).0 != (#[trigger] u[j]).0 by {
            assert(u[i].0 == m[i].0 && u[j].0 == m[j].0);
        }
        assert forall|i: int| 0 <= i < u.len() implies agent_ok(s.map, (#[trigger] u[i]).1) by {
            assert(u[i].1 == st || u[i].1 == m[i].1);
        }
    }
}

/// Replacing through the first occurrence index is a plain sequence update.
pub proof fn lemma_set_agent_at_index(
    dv: Seq<(AgentId, AgentState)>,
    agent: AgentId,
    st: AgentState,
    i: int,
)
    requires
        0 <= i < dv.len(),
        dv[i].0 == agent,
        forall|j: int| 0 <= j < i ==> (#[trigger] dv[j]).0 != agent,
    ensures
        set_agent(dv, agent, st) == dv.update(i, (agent, st)),
    decreases dv.len(),
{
    if i == 0 {
        assert(set_agent(dv, agent, st) =~= dv.update(0, (agent, st)));
    } else {
        assert(dv[0].0 != agent);
        assert(dv.skip(1)[i - 1] == dv[i]);
        assert forall|j: int| 0 <= j < i - 1 implies (#[trigger] dv.skip(1)[j]).0 != agent by {
            assert(dv.skip(1)[j] == dv[j + 1]);
        }
        lemma_set_agent_at_index(dv.skip(1), agent, st, i - 1);
        assert(set_agent(dv, agent, st) =~= dv.update(i, (agent, st)));
    }
}

/// The record of `agent` in `v`, scanning front to back, executed.
fn find_agent_in(v: &Vec<(AgentId, AgentState)>, agent: AgentId) -> (r: Option<AgentState>)
    ensures
        r == find_agent(v@, agent),
{
    let n = v.len();
    let mut i: usize = 0;
    proof {
        assert(v@.skip(0) =~= v@);
    }
    while i < n
        invariant
            i <= n,
            n == v@.len(),
            find_agent(v@.skip(i as int), agent) == find_agent(v@, agent),
        decreases n - i,
    {
        proof {
            assert(v@.skip(i as int)[0] == v@[i as int]);
            assert(v@.skip(i as int).skip(1) =~= v@.skip(i as int + 1));
        }
        if v[i].0 == agent {
            return Some(v[i].1);
        }
        i += 1;
    }
    proof {
        assert(v@.skip(n as int).len() == 0);
    }
    None
}

/// The index of the first record of `agent` in `v`, executed.
pub fn position_of_agent(v: &Vec<(AgentId, AgentState)>, agent: AgentId) -> (r: Option<usize>)
    ensures
        match r {
            Some(i) => i < v@.len() && v@[i as int].0 == agent && find_agent(v@, agent) == Some(
                v@[i as int].1,
            ) && (forall|j: int| 0 <= j < i ==> (#[trigger] v@[j]).0 != agent),
            None => find_agent(v@, agent) is None,
        },
{
    let n = v.len();
    let mut i: usize = 0;
    proof {
        assert(v@.skip(0) =~= v@);
    }
    while i < n
        invariant
            i <= n,
            n == v@.len(),
            find_agent(v@.skip(i as int), agent) == find_agent(v@, agent),
            forall|j: int| 0 <= j < i ==> (#[trigger] v@[j]).0 != agent,
        decreases n - i,
    {
        proof {
            assert(v@.skip(i as int)[0] == v@[i as int]);
            assert(v@.skip(i as int).skip(1) =~= v@.skip(i as int + 1));
        }
        if v[i].0 == agent {
            return Some(i);
        }
        i += 1;
    }
    proof {
        assert(v@.skip(n as int).len() == 0);
    }
    None
}

impl Diff {
    /// Whether this diff overrides `agent`.
    pub fn has_agent(&self, agent: AgentId) -> (r: bool)
        ensures
            r == spec_has_agent(self.agents@, agent),
    {
        self.get_agent(agent).is_some()
    }

    /// The override of `agent`, if any.
    pub fn get_agent(&self, agent: AgentId) -> (r: Option<AgentState>)
        ensures
            r == find_agent(self.agents@, agent),
    {
        find_agent_in(&self.agents, agent)
    }

    /// Guarantees an override entry for `agent`, seeding it from the initial
    /// snapshot if absent, and returns the entry's index.
    pub fn ensure_agent(&mut self, s: &GlobalState, agent: AgentId) -> (i: usize)
        requires
            spec_present(*s, old(self).agents@, agent),
        ensures
            final(self).agents@ == materialize(*s, old(self).agents@, agent),
            i < final(self).agents@.len(),
            final(self).agents@[i as int].0 == agent,
            final(self).agents@[i as int].1 == composed_get(*s, old(self).agents@, agent).unwrap(),
            forall|j: int| 0 <= j < i ==> (#[trigger] final(self).agents@[j]).0 != agent,
    {
        match position_of_agent(&self.agents, agent) {
            Some(i) => i,
            None => {
                let seeded = match find_agent_in(&s.agents, agent) {
                    Some(st) => st,
                    None => {
                        proof {
                            assert(false);
                        }
                        AgentState {
                            ty: AgentType::Rock,
                            location: Coord { x: 0, y: 0 },
                            conversions: 0,
                        }
                    },
                };
                let i = self.agents.len();
                self.agents.push((agent, seeded));
                proof {
                    lemma_absent_no_entry(old(self).agents@, agent);
                }
                i
            },
        }
    }

    /// Overwrites the entry at `i`, the first record of `agent`.
    pub fn set_entry(&mut self, i: usize, agent: AgentId, st: AgentState)
        requires
            i < old(self).agents@.len(),
            old(self).agents@[i as int].0 == agent,
            forall|j: int| 0 <= j < i ==> (#[trigger] old(self).agents@[j]).0 != agent,
        ensures
            final(self).agents@ == set_agent(old(self).agents@, agent, st),
    {
        self.agents[i] = (agent, st);
        proof {
            lemma_set_agent_at_index(old(self).agents@, agent, st, i as int);
        }
    }
}

/// The composed record of `agent`, executed.
pub fn composed_get_in(s: &GlobalState, dv: &Vec<(AgentId, AgentState)>, agent: AgentId) -> (r:
    Option<AgentState>)
    ensures
        r == composed_get(*s, dv@, agent),
{
    match find_agent_in(dv, agent) {
        Some(st) => Some(st),
        None => find_agent_in(&s.agents, agent),
    }
}

/// The first composed occupant of `location`, executed.
pub fn composed_at_in(s: &GlobalState, dv: &Vec<(AgentId, AgentState)>, location: Coord) -> (r:
    Option<(AgentId, AgentState)>)
    ensures
        r == composed_at(*s, dv@, location),
{
    let n = dv.len();
    let mut i: usize = 0;
    proof {
        assert(dv@.skip(0) =~= dv@);
    }
    while i < n
        invariant
            i <= n,
            n == dv@.len(),
            find_at(dv@.skip(i as int), location) == find_at(dv@, location),
        decreases n - i,
    {
        proof {
            assert(dv@.skip(i as int)[0] == dv@[i as int]);
            assert(dv@.skip(i as int).skip(1) =~= dv@.skip(i as int + 1));
        }
        if dv[i].1.location == location {
            return Some((dv[i].0, dv[i].1));
        }
        i += 1;
    }
    proof {
        assert(dv@.skip(n as int).len() == 0);
    }

    let sv = &s.agents;
    let m = sv.len();
    let mut k: usize = 0;
    proof {
        assert(sv@.skip(0) =~= sv@);
    }
    while k < m
        invariant
            k <= m,
            m == sv@.len(),
            sv == s.agents,
            find_at(dv@, location) is None,
            find_at_not_overridden(sv@.skip(k as int), dv@, location) == find_at_not_overridden(
                sv@,
                dv@,
                location,
            ),
        decreases m - k,
    {
        proof {
            assert(sv@.skip(k as int)[0] == sv@[k as int]);
            assert(sv@.skip(k as int).skip(1) =~= sv@.skip(k as int + 1));
        }
        if sv[k].1.location == location {
            if find_agent_in(dv, sv[k].0).is_none() {
                return Some((sv[k].0, sv[k].1));
            }
        }
        k += 1;
    }
    proof {
        assert(sv@.skip(m as int).len() == 0);
    }
    None
}

/// A read-only view of the initial snapshot composed with one diff.
pub struct StateDiffRef<'a> {
    pub initial_state: &'a GlobalState,
    pub diff: &'a Diff,
}

impl<'a> StateDiffRef<'a> {
    pub fn new(initial_state: &'a GlobalState, diff: &'a Diff) -> (r: StateDiffRef<'a>)
        ensures
            r.initial_state == initial_state,
            r.diff == diff,
    {
        StateDiffRef { initial_state, diff }
    }

    pub fn map_height(&self) -> (r: u32)
        ensures
            r == self.initial_state.map.height,
    {
        self.initial_state.map.height()
    }

    pub fn map_width(&self) -> (r: u32)
        ensures
            r == self.initial_state.map.width,
    {
        self.initial_state.map.width()
    }

    /// The identifiers of all agents in the initial snapshot, in key order.
    pub fn list_agents(&self) -> (r: Vec<AgentId>)
        ensures
            r@.len() == self.initial_state.agents@.len(),
            forall|k: int|
                0 <= k < r@.len() ==> r@[k] == (#[trigger] self.initial_state.agents@[k]).0,
    {
        let v = &self.initial_state.agents;
        let n = v.len();
        let mut r: Vec<AgentId> = Vec::new();
        let mut i: usize = 0;
        while i < n
            invariant
                i <= n,
                n == v@.len(),
                v == self.initial_state.agents,
                r@.len() == i,
                forall|k: int| 0 <= k < i ==> r@[k] == (#[trigger] v@[k]).0,
            decreases n - i,
        {
            r.push(v[i].0);
            i += 1;
        }
        r
    }

    /// The composed record of `agent`.
    pub fn get_agent(&self, agent: AgentId) -> (r: Option<AgentState>)
        ensures
            r == composed_get(*self.initial_state, self.diff.agents@, agent),
    {
        composed_get_in(self.initial_state, &self.diff.agents, agent)
    }

    /// The first composed occupant of `location`: the diff's entries are
    /// scanned first, then the initial agents that have no override.
    pub fn get_agent_at(&self, location: Coord) -> (r: Option<(AgentId, AgentState)>)
        ensures
            r == composed_at(*self.initial_state, self.diff.agents@, location),
    {
        composed_at_in(self.initial_state, &self.diff.agents, location)
    }

    /// The type of the composed occupant of `location`, if any.
    pub fn agent_type_at_location(&self, location: Coord) -> (r: Option<AgentType>)
        ensures
            r == match composed_at(*self.initial_state, self.diff.agents@, location) {
                Some(p) => Some(p.1.ty),
                None => None::<AgentType>,
            },
    {
        if let Some((_, agent)) = self.get_agent_at(location) {
            Some(agent.ty)
        } else {
            None
        }
    }

    /// Whether `location` lies on the grid.
    pub fn is_location_valid(&self, location: Coord) -> (r: bool)
        requires
            self.initial_state.map.wf(),
        ensures
            r == in_bounds(self.initial_state.map, location),
    {
        !self.initial_state.map.out_of_bounds(location)
    }
}

} // verus!
