//! The world store: the population of agents, indexed by a stable identifier
//! (the position in the vector), together with its well-formedness predicate
//! and the spec-level views that the per-turn systems' contracts share.

use vstd::prelude::*;
use crate::agent::{Action, Agent, Attacker, Enemy};

verus! {

/// Whether index `j` names a currently-living agent of `s`.
pub open spec fn is_alive(s: Seq<Agent>, j: int) -> bool {
    0 <= j < s.len() && s[j].alive
}

/// A single agent record is well formed with respect to a population of
/// `n` agents: its references stay inside the population and never name
/// the agent itself.
pub open spec fn agent_wf(a: Agent, i: int, n: int) -> bool {
    &&& (a.enemy.0 matches Some(j) ==> j < n && j != i)
    &&& (a.attacker.0 matches Some(j) ==> j < n && j != i)
}

/// Every reference held by any agent of `s` names another agent of `s`.
pub open spec fn world_wf(s: Seq<Agent>) -> bool {
    forall|i: int| 0 <= i < s.len() ==> agent_wf(#[trigger] s[i], i, s.len() as int)
}

/// Every living agent's target, when present, names a currently-living
/// agent other than itself. The targeting system restores this at the top
/// of each turn; a target may go stale again once the death system runs.
pub open spec fn targets_valid(s: Seq<Agent>) -> bool {
    forall|i: int|
        is_alive(s, i) ==> (#[trigger] s[i].enemy.0 matches Some(j) ==> is_alive(s, j as int)
            && j != i)
}

/// The number of living agents among the first `n` of `s`.
pub open spec fn count_alive_upto(s: Seq<Agent>, n: int) -> int
    decreases n,
{
    if n <= 0 {
        0
    } else {
        count_alive_upto(s, n - 1) + if s[n - 1].alive {
            1int
        } else {
            0int
        }
    }
}

/// The number of living agents of `s`.
pub open spec fn count_alive_spec(s: Seq<Agent>) -> int {
    count_alive_upto(s, s.len() as int)
}

/// The store that every system reads and writes, owned by the turn loop
/// and lent to each system for the duration of its call.
#[derive(Debug)]
pub struct World {
    pub agents: Vec<Agent>,
}

impl World {
    /// Abbreviation for the mathematical view of the population.
    pub open spec fn view_agents(self) -> Seq<Agent> {
        self.agents@
    }

    pub open spec fn wf(self) -> bool {
        world_wf(self.agents@)
    }

    /// Runtime check of the well-formedness predicate, for callers outside
    /// the verified world that must establish it before a system call.
    pub fn wf_exec(&self) -> (r: bool)
        ensures
            r == self.wf(),
    {
        let n: usize = self.agents.len();
        let mut i: usize = 0;
        let mut ok: bool = true;
        while i < n
            invariant
                n == self.agents@.len(),
                0 <= i <= n,
                ok == (forall|k: int|
                    0 <= k < i ==> agent_wf(#[trigger] self.agents@[k], k, n as int)),
            decreases n - i,
        {
            let a = &self.agents[i];
            let here: bool = match a.enemy.0 {
                Some(j) => j < n && j != i,
                None => true,
            } && match a.attacker.0 {
                Some(j) => j < n && j != i,
                None => true,
            };
            ok = ok && here;
            i = i + 1;
        }
        ok
    }

    /// The number of currently-living agents.
    pub fn count_alive(&self) -> (r: usize)
        ensures
            r == count_alive_spec(self.agents@),
    {
        let n: usize = self.agents.len();
        let mut i: usize = 0;
        let mut c: usize = 0;
        while i < n
            invariant
                n == self.agents@.len(),
                0 <= i <= n,
                c == count_alive_upto(self.agents@, i as int),
                c <= i,
            decreases n - i,
        {
            if self.agents[i].alive {
                c = c + 1;
            }
            i = i + 1;
        }
        c
    }
}

/// Creates one agent per name: alive, at full health, snarling, with no
/// target, no recorded attacker and no damage roll.
pub fn populate_world(names: &Vec<String>) -> (w: World)
    ensures
        w.agents@.len() == names@.len(),
        forall|i: int|
            0 <= i < names@.len() ==> #[trigger] w.agents@[i] == (Agent {
                alive: true,
                name: names@[i],
                health: 10u32,
                action: Action::Snarls,
                attacker: Attacker(None),
                enemy: Enemy(None),
                damage: 0u32,
            }),
        w.wf(),
{
    let mut agents: Vec<Agent> = Vec::new();
    let n: usize = names.len();
    let mut i: usize = 0;
    while i < n
        invariant
            n == names@.len(),
            agents@.len() == i,
            0 <= i <= n,
            forall|k: int|
                0 <= k < i ==> #[trigger] agents@[k] == (Agent {
                    alive: true,
                    name: names@[k],
                    health: 10u32,
                    action: Action::Snarls,
                    attacker: Attacker(None),
                    enemy: Enemy(None),
                    damage: 0u32,
                }),
        decreases n - i,
    {
        agents.push(Agent {
            alive: true,
            name: names[i].clone(),
            health: 10,
            action: Action::Snarls,
            attacker: Attacker(None),
            enemy: Enemy(None),
            damage: 0,
        });
        i = i + 1;
    }
    let w = World { agents };
    assert forall|k: int| 0 <= k < w.agents@.len() implies agent_wf(
        #[trigger] w.agents@[k],
        k,
        w.agents@.len() as int,
    ) by {}
    w
}

} // verus!
