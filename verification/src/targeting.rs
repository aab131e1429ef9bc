//! The targeting system: at the top of every turn it recomputes each living
//! agent's target in three passes. Pass one clears targets that died; pass
//! two retargets onto the agent that bit this one last, when that agent is
//! still alive, overriding whatever pass one kept; pass three gives every
//! living agent still without a target a drawn pick among the other living
//! agents, skipping agents for which no such candidate exists.

use vstd::prelude::*;
use crate::agent::{Agent, Enemy};
use crate::world::{agent_wf, is_alive, targets_valid, world_wf, World};
use crate::rng::rng_range;

verus! {

/// `a` with its target replaced.
pub open spec fn with_enemy(a: Agent, e: Option<usize>) -> Agent {
    Agent {
        alive: a.alive,
        name: a.name,
        health: a.health,
        action: a.action,
        attacker: a.attacker,
        enemy: Enemy(e),
        damage: a.damage,
    }
}

/// The living agents other than `i` among the first `n` of `s`, in index
/// order: the candidate pool for agent `i`'s fallback pass.
pub open spec fn candidates_upto(s: Seq<Agent>, i: int, n: int) -> Seq<usize>
    decreases n,
{
    if n <= 0 {
        Seq::empty()
    } else {
        candidates_upto(s, i, n - 1) + if s[n - 1].alive && n - 1 != i {
            seq![(n - 1) as usize]
        } else {
            Seq::empty()
        }
    }
}

pub open spec fn candidates(s: Seq<Agent>, i: int) -> Seq<usize> {
    candidates_upto(s, i, s.len() as int)
}

/// Agent `i`'s target after the stale-target pass: the old target, kept
/// only if it is still alive.
pub open spec fn pass1_enemy(s: Seq<Agent>, i: int) -> Option<usize> {
    match s[i].enemy.0 {
        Some(j) => if is_alive(s, j as int) {
            Some(j)
        } else {
            None
        },
        None => None,
    }
}

/// Agent `i`'s target after the retaliation pass: the agent that bit it
/// last, when that agent is still alive, overriding the kept target.
pub open spec fn pass2_enemy(s: Seq<Agent>, i: int) -> Option<usize> {
    match s[i].attacker.0 {
        Some(a) => if is_alive(s, a as int) {
            Some(a)
        } else {
            pass1_enemy(s, i)
        },
        None => pass1_enemy(s, i),
    }
}

/// Agent `i`'s target once all three passes have run, given its fallback
/// draw `pick`: the retaliation or kept target when one exists, otherwise
/// the `pick`-selected living candidate, otherwise none.
pub open spec fn chosen_enemy(s: Seq<Agent>, i: int, pick: nat) -> Option<usize> {
    match pass2_enemy(s, i) {
        Some(j) => Some(j),
        None => {
            let c = candidates(s, i);
            if c.len() > 0 {
                Some(c[(pick % c.len()) as int])
            } else {
                None
            }
        },
    }
}

/// The whole population after the targeting system: every living agent's
/// target is recomputed from the committed pre-turn state, every dead
/// agent is untouched.
pub open spec fn enemies_updated(s: Seq<Agent>, picks: Seq<usize>) -> Seq<Agent> {
    Seq::new(
        s.len(),
        |i: int|
            if s[i].alive {
                with_enemy(s[i], chosen_enemy(s, i, picks[i] as nat))
            } else {
                s[i]
            },
    )
}

/// Every member of the candidate pool is a living agent other than `i`,
/// with an index under `n`.
pub proof fn lemma_candidates_props(s: Seq<Agent>, i: int, n: int)
    requires
        0 <= n <= s.len(),
        s.len() <= usize::MAX,
    ensures
        forall|m: int|
            0 <= m < candidates_upto(s, i, n).len() ==> {
                let j = #[trigger] candidates_upto(s, i, n)[m];
                is_alive(s, j as int) && j != i && j < n
            },
    decreases n,
{
    if n > 0 {
        lemma_candidates_props(s, i, n - 1);
        let c = candidates_upto(s, i, n);
        let p = candidates_upto(s, i, n - 1);
        assert forall|m: int| 0 <= m < c.len() implies {
            let j = #[trigger] c[m];
            is_alive(s, j as int) && j != i && j < n
        } by {
            if m < p.len() {
                assert(c[m] == p[m]);
            } else {
                assert(c[m] == (n - 1) as usize);
            }
        }
    }
}

/// Two populations with the same length and the same living agents have
/// the same candidate pools.
pub proof fn lemma_candidates_same_alive(s: Seq<Agent>, t: Seq<Agent>, i: int, n: int)
    requires
        s.len() == t.len(),
        0 <= n <= s.len(),
        forall|k: int| 0 <= k < s.len() ==> #[trigger] s[k].alive == t[k].alive,
    ensures
        candidates_upto(s, i, n) == candidates_upto(t, i, n),
    decreases n,
{
    if n > 0 {
        lemma_candidates_same_alive(s, t, i, n - 1);
    }
}

/// The target validity law: whatever the draws, the target the three
/// passes leave on a living agent of a well-formed population is either
/// absent or a living agent other than the owner.
pub proof fn lemma_chosen_enemy_valid(s: Seq<Agent>, i: int, pick: nat)
    requires
        world_wf(s),
        is_alive(s, i),
        s.len() <= usize::MAX,
    ensures
        chosen_enemy(s, i, pick) matches Some(j) ==> is_alive(s, j as int) && j != i,
{
    assert(agent_wf(s[i], i, s.len() as int));
    match pass2_enemy(s, i) {
        Some(_) => {
        },
        None => {
            let c = candidates(s, i);
            if c.len() > 0 {
                lemma_candidates_props(s, i, s.len() as int);
            }
        },
    }
}

/// The retaliation priority law: when a living agent of a well-formed
/// population was last bitten by an agent that is still alive, the
/// targeting passes aim it at that agent, whatever target it held before
/// and whatever its fallback draw.
pub proof fn lemma_retaliation_priority(s: Seq<Agent>, i: int, a: usize, pick: nat)
    requires
        world_wf(s),
        is_alive(s, i),
        s[i].attacker.0 == Some(a),
        is_alive(s, a as int),
    ensures
        chosen_enemy(s, i, pick) == Some(a),
{
}

/// Recomputes every living agent's target in the three passes, taking one
/// fallback draw per agent: agent `i`'s draw selects, by index modulo the
/// pool size, among the living agents other than `i`, and goes unused when
/// the first two passes already left a target or the pool is empty.
#[verifier::loop_isolation(false)]
pub fn choose_enemy_with(world: &mut World, picks: &Vec<usize>)
    requires
        old(world).wf(),
        picks@.len() == old(world).agents@.len(),
    ensures
        final(world).agents@ == enemies_updated(old(world).agents@, picks@),
        final(world).wf(),
        targets_valid(final(world).agents@),
{
    let ghost s0 = world.agents@;
    let n: usize = world.agents.len();

    // Pass 1: clear targets that died since last turn.
    let mut i: usize = 0;
    while i < n
        invariant
            world.agents@.len() == n,
            0 <= i <= n,
            forall|k: int|
                0 <= k < n ==> #[trigger] world.agents@[k] == (if k < i && s0[k].alive {
                    with_enemy(s0[k], pass1_enemy(s0, k))
                } else {
                    s0[k]
                }),
        decreases n - i,
    {
        if world.agents[i].alive {
            match world.agents[i].enemy.0 {
                Some(j) => {
                    assert(agent_wf(s0[i as int], i as int, n as int));
                    if !world.agents[j].alive {
                        world.agents[i].enemy = Enemy(None);
                    }
                },
                None => {},
            }
        }
        i = i + 1;
    }
    let ghost sp1 = world.agents@;

    // Pass 2: retaliate against a still-living last attacker, overriding
    // whatever pass one kept.
    let mut i: usize = 0;
    while i < n
        invariant
            world.agents@.len() == n,
            0 <= i <= n,
            forall|k: int|
                0 <= k < n ==> #[trigger] world.agents@[k] == (if k < i && s0[k].alive {
                    with_enemy(s0[k], pass2_enemy(s0, k))
                } else {
                    sp1[k]
                }),
        decreases n - i,
    {
        if world.agents[i].alive {
            match world.agents[i].attacker.0 {
                Some(a) => {
                    assert(agent_wf(s0[i as int], i as int, n as int));
                    if world.agents[a].alive {
                        world.agents[i].enemy = Enemy(Some(a));
                    }
                },
                None => {},
            }
        }
        i = i + 1;
    }
    let ghost sp2 = world.agents@;

    // Pass 3: give every living agent still without a target its drawn
    // pick among the other living agents, skipping it when none exists.
    let mut i: usize = 0;
    while i < n
        invariant
            world.agents@.len() == n,
            0 <= i <= n,
            forall|k: int|
                0 <= k < n ==> #[trigger] world.agents@[k] == (if k < i && s0[k].alive {
                    with_enemy(s0[k], chosen_enemy(s0, k, picks@[k] as nat))
                } else {
                    sp2[k]
                }),
        decreases n - i,
    {
        if world.agents[i].alive && world.agents[i].enemy.is_none() {
            let mut cand: Vec<usize> = Vec::new();
            let mut j: usize = 0;
            while j < n
                invariant
                    0 <= j <= n,
                    cand@ == candidates_upto(s0, i as int, j as int),
                decreases n - j,
            {
                if world.agents[j].alive && j != i {
                    cand.push(j);
                }
                j = j + 1;
            }
            if cand.len() > 0 {
                let pick: usize = picks[i] % cand.len();
                let target: usize = cand[pick];
                world.agents[i].enemy = Enemy(Some(target));
            }
        }
        i = i + 1;
    }

    assert(world.agents@ =~= enemies_updated(s0, picks@));
    assert forall|k: int| 0 <= k < n implies agent_wf(
        #[trigger] world.agents@[k],
        k,
        n as int,
    ) by {
        assert(agent_wf(s0[k], k, n as int));
        if s0[k].alive {
            lemma_chosen_enemy_valid(s0, k, picks@[k] as nat);
        }
    }
    assert forall|k: int| is_alive(world.agents@, k) implies (
    #[trigger] world.agents@[k].enemy.0 matches Some(j) ==> is_alive(world.agents@, j as int)
        && j != k) by {
        lemma_chosen_enemy_valid(s0, k, picks@[k] as nat);
    }
}

/// The targeting system as the turn loop runs it: one fresh draw per agent,
/// uniform over that agent's candidate pool, handed to the three passes.
/// Whatever the draws, the result is the passes' outcome for some such
/// sequence of draws, and every living agent's target is left valid.
#[verifier::loop_isolation(false)]
pub fn choose_enemy(world: &mut World)
    requires
        old(world).wf(),
    ensures
        final(world).agents@.len() == old(world).agents@.len(),
        exists|picks: Seq<usize>|
            picks.len() == old(world).agents@.len() && final(world).agents@
                == #[trigger] enemies_updated(old(world).agents@, picks),
        final(world).wf(),
        targets_valid(final(world).agents@),
{
    let ghost s0 = world.agents@;
    let n: usize = world.agents.len();
    let mut picks: Vec<usize> = Vec::new();
    let mut i: usize = 0;
    while i < n
        invariant
            world.agents@ == s0,
            0 <= i <= n,
            picks@.len() == i,
        decreases n - i,
    {
        let mut c: usize = 0;
        let mut j: usize = 0;
        while j < n
            invariant
                0 <= j <= n,
                c == candidates_upto(s0, i as int, j as int).len(),
                c <= j,
            decreases n - j,
        {
            if world.agents[j].alive && j != i {
                c = c + 1;
            }
            j = j + 1;
        }
        let p: usize = if c > 0 {
            rng_range(0, c - 1)
        } else {
            0
        };
        picks.push(p);
        i = i + 1;
    }
    choose_enemy_with(world, &picks);
    assert(world.agents@ == enemies_updated(s0, picks@));
}

/// The idempotence law: running the targeting system twice in a row, with
/// no intervening deaths and whatever the two rounds' draws, leaves the
/// assignments of the first run in place. The second run's stale pass finds
/// only living targets, its retaliation pass recomputes the same overrides,
/// and its fallback pass finds no agent still lacking a target that could
/// be given one.
pub proof fn lemma_targeting_idempotent(s: Seq<Agent>, picks1: Seq<usize>, picks2: Seq<usize>)
    requires
        world_wf(s),
        s.len() <= usize::MAX,
        picks1.len() == s.len(),
        picks2.len() == s.len(),
    ensures
        enemies_updated(enemies_updated(s, picks1), picks2) == enemies_updated(s, picks1),
{
    let s1 = enemies_updated(s, picks1);
    assert forall|k: int| 0 <= k < s.len() implies #[trigger] s1[k].alive == s[k].alive && s1[
        k
    ].attacker == s[k].attacker by {}
    assert forall|i: int| 0 <= i < s1.len() && s1[i].alive implies chosen_enemy(
        s1,
        i,
        picks2[i] as nat,
    ) == s1[i].enemy.0 by {
        lemma_candidates_same_alive(s, s1, i, s.len() as int);
        lemma_chosen_enemy_valid(s, i, picks1[i] as nat);
        assert(s1[i].enemy.0 == chosen_enemy(s, i, picks1[i] as nat));
        match s[i].attacker.0 {
            Some(a) => {
                if is_alive(s, a as int) {
                    assert(pass2_enemy(s1, i) == Some(a));
                } else {
                    lemma_second_round_keeps(s, s1, i, picks1[i] as nat, picks2[i] as nat);
                }
            },
            None => {
                lemma_second_round_keeps(s, s1, i, picks1[i] as nat, picks2[i] as nat);
            },
        }
    }
    assert(enemies_updated(s1, picks2) =~= s1);
}

/// Helper for the idempotence law: an agent whose retaliation pass does not
/// fire keeps, on a second run, exactly the target the first run left it.
proof fn lemma_second_round_keeps(s: Seq<Agent>, s1: Seq<Agent>, i: int, p1: nat, p2: nat)
    requires
        world_wf(s),
        s.len() <= usize::MAX,
        s1.len() == s.len(),
        0 <= i < s.len(),
        s[i].alive,
        forall|k: int| 0 <= k < s.len() ==> #[trigger] s1[k].alive == s[k].alive,
        s1[i].attacker == s[i].attacker,
        s1[i].enemy.0 == chosen_enemy(s, i, p1),
        !(s[i].attacker.0 matches Some(a) && is_alive(s, a as int)),
    ensures
        chosen_enemy(s1, i, p2) == s1[i].enemy.0,
{
    lemma_candidates_same_alive(s, s1, i, s.len() as int);
    lemma_chosen_enemy_valid(s, i, p1);
    match chosen_enemy(s, i, p1) {
        Some(j) => {
            assert(is_alive(s, j as int));
            assert(pass1_enemy(s1, i) == Some(j));
        },
        None => {
            assert(pass2_enemy(s, i) == None::<usize>);
            assert(candidates(s, i).len() == 0);
            assert(pass1_enemy(s1, i) == None::<usize>);
        },
    }
}

} // verus!
