//! The turn loop: one full pass of the fixed system pipeline per turn —
//! targeting, damage roll, behaviour selection, the two narration
//! observers, attack resolution, death — then the termination check. The
//! loop runs for at most the configured number of turns and finishes early
//! once at most one agent remains alive.

use vstd::prelude::*;
use crate::agent::{Action, Agent};
use crate::world::{count_alive_spec, is_alive, World};
use crate::combat::{
    actions_updated, attack, attack_applied, attack_events, bark, choose_action,
    choose_action_with, damages_updated, death, deaths_applied, doomed,
    lemma_total_damage_nonneg, randomize_damage, randomize_damage_with, snarls, speakers,
    AttackEvent,
};
use crate::targeting::{choose_enemy, choose_enemy_with, enemies_updated};

verus! {

/// The living agents, in index order.
pub open spec fn alive_upto(s: Seq<Agent>, n: int) -> Seq<usize>
    decreases n,
{
    if n <= 0 {
        Seq::empty()
    } else {
        alive_upto(s, n - 1) + if s[n - 1].alive {
            seq![(n - 1) as usize]
        } else {
            Seq::empty()
        }
    }
}

pub open spec fn alive_indices(s: Seq<Agent>) -> Seq<usize> {
    alive_upto(s, s.len() as int)
}

/// The winner once the turn's systems have run: the one living agent when
/// exactly one remains, and nobody otherwise.
pub open spec fn winner_of(s: Seq<Agent>) -> Option<usize> {
    if alive_indices(s).len() == 1 {
        Some(alive_indices(s)[0])
    } else {
        None
    }
}

/// The population midway through a turn, after targeting, damage rolls and
/// behaviour selection have committed but before any damage lands: the
/// state the narration observers and the attack scan read.
pub open spec fn turn_mid(s: Seq<Agent>, ep: Seq<usize>, rolls: Seq<u32>, ap: Seq<usize>) -> Seq<
    Agent,
> {
    actions_updated(damages_updated(enemies_updated(s, ep), rolls), ap)
}

/// The population once the whole turn has run.
pub open spec fn turn_post(s: Seq<Agent>, ep: Seq<usize>, rolls: Seq<u32>, ap: Seq<usize>) -> Seq<
    Agent,
> {
    deaths_applied(attack_applied(turn_mid(s, ep, rolls, ap)))
}

/// One turn's worth of draws: the targeting fallback picks, the damage
/// rolls, and the behaviour picks, one of each per agent.
pub type TurnDraws = (Seq<usize>, Seq<u32>, Seq<usize>);

/// The draws of one turn fit a population of `n` agents: one draw of each
/// kind per agent, and every damage roll in the closed range 1 to 8.
pub open spec fn draws_wf(d: TurnDraws, n: nat) -> bool {
    &&& d.0.len() == n
    &&& d.1.len() == n
    &&& d.2.len() == n
    &&& forall|k: int| 0 <= k < d.1.len() ==> 1 <= #[trigger] d.1[k] <= 8
}

/// The population after the first `i` turns of `draws` have run from `s`:
/// each turn is one application of the full pipeline.
pub open spec fn sim_state(s: Seq<Agent>, draws: Seq<TurnDraws>, i: int) -> Seq<Agent>
    decreases i,
{
    if i <= 0 {
        s
    } else {
        let prev = sim_state(s, draws, i - 1);
        turn_post(prev, draws[i - 1].0, draws[i - 1].1, draws[i - 1].2)
    }
}

/// `rep` is the report the pipeline owes for one turn run from `prev` with
/// the draws `d`.
pub open spec fn report_matches(rep: TurnReport, prev: Seq<Agent>, d: TurnDraws) -> bool {
    let mid = turn_mid(prev, d.0, d.1, d.2);
    &&& rep.barks@ == speakers(mid, Action::Barks)
    &&& rep.snarls@ == speakers(mid, Action::Snarls)
    &&& rep.attacks@ == attack_events(mid)
    &&& rep.deaths@ == doomed(attack_applied(mid))
    &&& rep.winner == winner_of(turn_post(prev, d.0, d.1, d.2))
}

/// The whole run is an iteration of the turn pipeline: the states chain
/// through `turn_post` under `draws`, one report per turn with that turn's
/// narration, events, deaths and winner, `fin` is the last state, and
/// every turn but the last left at least two agents alive — the loop never
/// ran past a turn that settled the encounter.
pub open spec fn simulation_trace(
    s: Seq<Agent>,
    draws: Seq<TurnDraws>,
    reports: Seq<TurnReport>,
    fin: Seq<Agent>,
) -> bool {
    &&& draws.len() == reports.len()
    &&& forall|i: int| 0 <= i < draws.len() ==> draws_wf(#[trigger] draws[i], s.len())
    &&& forall|i: int|
        0 <= i < reports.len() ==> #[trigger] report_matches(
            reports[i],
            sim_state(s, draws, i),
            draws[i],
        )
    &&& fin == sim_state(s, draws, reports.len() as int)
    &&& forall|i: int|
        0 <= i < reports.len() - 1 ==> count_alive_spec(#[trigger] sim_state(s, draws, i + 1))
            >= 2
}

/// Appending a turn's draws leaves every earlier state of the run as it
/// was.
proof fn lemma_sim_state_push(s: Seq<Agent>, draws: Seq<TurnDraws>, d: TurnDraws, i: int)
    requires
        0 <= i <= draws.len(),
    ensures
        sim_state(s, draws.push(d), i) == sim_state(s, draws, i),
    decreases i,
{
    if i > 0 {
        lemma_sim_state_push(s, draws, d, i - 1);
        assert(draws.push(d)[i - 1] == draws[i - 1]);
    }
}

/// Everything one turn owes its caller: the narration lines in index
/// order, the attack events in attacker order with their pre-attack health
/// snapshots, the death notices, and the winner if the turn left exactly
/// one agent alive.
#[derive(Debug)]
pub struct TurnReport {
    pub barks: Vec<(usize, u32)>,
    pub snarls: Vec<(usize, u32)>,
    pub attacks: Vec<AttackEvent>,
    pub deaths: Vec<usize>,
    pub winner: Option<usize>,
}

/// A turn can only take: whatever the draws, every agent's health is no
/// higher after the turn than before, no dead agent returns to life, the
/// population itself never changes size, and names never change.
pub proof fn lemma_turn_monotonic(s: Seq<Agent>, ep: Seq<usize>, rolls: Seq<u32>, ap: Seq<usize>)
    requires
        ep.len() == s.len(),
        rolls.len() == s.len(),
        ap.len() == s.len(),
    ensures
        turn_post(s, ep, rolls, ap).len() == s.len(),
        forall|i: int|
            0 <= i < s.len() ==> #[trigger] turn_post(s, ep, rolls, ap)[i].health <= s[i].health,
        forall|i: int| 0 <= i < s.len() && turn_post(s, ep, rolls, ap)[i].alive ==> s[i].alive,
        forall|i: int| 0 <= i < s.len() ==> #[trigger] turn_post(s, ep, rolls, ap)[i].name == s[i].name,
{
    let s3 = turn_mid(s, ep, rolls, ap);
    let s4 = attack_applied(s3);
    assert forall|i: int| 0 <= i < s.len() implies #[trigger] s4[i].health <= s[i].health && (s4[i].alive
        ==> s[i].alive) && s4[i].name == s[i].name by {
        lemma_total_damage_nonneg(attack_events(s3), i);
    }
}

/// The count of living agents and the list of living agents agree.
pub proof fn lemma_alive_count_is_len(s: Seq<Agent>, n: int)
    requires
        0 <= n <= s.len(),
    ensures
        crate::world::count_alive_upto(s, n) == alive_upto(s, n).len(),
    decreases n,
{
    if n > 0 {
        lemma_alive_count_is_len(s, n - 1);
    }
}

/// The winner: the one living agent when exactly one remains.
#[verifier::loop_isolation(false)]
pub fn sole_survivor(world: &World) -> (r: Option<usize>)
    ensures
        r == winner_of(world.agents@),
        r matches Some(j) ==> is_alive(world.agents@, j as int),
        (r is Some) == (count_alive_spec(world.agents@) == 1),
{
    proof {
        lemma_alive_count_is_len(world.agents@, world.agents@.len() as int);
    }
    let n: usize = world.agents.len();
    let mut alive: Vec<usize> = Vec::new();
    let mut i: usize = 0;
    while i < n
        invariant
            0 <= i <= n,
            alive@ == alive_upto(world.agents@, i as int),
        decreases n - i,
    {
        if world.agents[i].alive {
            alive.push(i);
        }
        i = i + 1;
    }
    if alive.len() == 1 {
        proof {
            lemma_alive_upto_props(world.agents@, n as int);
        }
        Some(alive[0])
    } else {
        None
    }
}

/// Every listed index names a living agent.
proof fn lemma_alive_upto_props(s: Seq<Agent>, n: int)
    requires
        0 <= n <= s.len(),
        s.len() <= usize::MAX,
    ensures
        forall|m: int|
            0 <= m < alive_upto(s, n).len() ==> is_alive(
                s,
                #[trigger] alive_upto(s, n)[m] as int,
            ),
    decreases n,
{
    if n > 0 {
        lemma_alive_upto_props(s, n - 1);
        let c = alive_upto(s, n);
        let p = alive_upto(s, n - 1);
        assert forall|m: int| 0 <= m < c.len() implies is_alive(s, #[trigger] c[m] as int) by {
            if m < p.len() {
                assert(c[m] == p[m]);
            } else {
                assert(c[m] == (n - 1) as usize);
            }
        }
    }
}

/// One full turn of the pipeline, with every draw supplied by the caller:
/// `enemy_picks` feeds the targeting fallback, `rolls` the damage system,
/// `action_picks` the behaviour selection. The report and the final state
/// are exactly determined by the starting state and the draws.
pub fn run_turn_with(
    world: &mut World,
    enemy_picks: &Vec<usize>,
    rolls: &Vec<u32>,
    action_picks: &Vec<usize>,
) -> (r: TurnReport)
    requires
        old(world).wf(),
        enemy_picks@.len() == old(world).agents@.len(),
        rolls@.len() == old(world).agents@.len(),
        action_picks@.len() == old(world).agents@.len(),
    ensures
        final(world).agents@ == turn_post(old(world).agents@, enemy_picks@, rolls@, action_picks@),
        final(world).wf(),
        r.barks@ == speakers(
            turn_mid(old(world).agents@, enemy_picks@, rolls@, action_picks@),
            Action::Barks,
        ),
        r.snarls@ == speakers(
            turn_mid(old(world).agents@, enemy_picks@, rolls@, action_picks@),
            Action::Snarls,
        ),
        r.attacks@ == attack_events(
            turn_mid(old(world).agents@, enemy_picks@, rolls@, action_picks@),
        ),
        r.deaths@ == doomed(
            attack_applied(turn_mid(old(world).agents@, enemy_picks@, rolls@, action_picks@)),
        ),
        r.winner == winner_of(final(world).agents@),
        (r.winner is Some) == (count_alive_spec(final(world).agents@) == 1),
{
    choose_enemy_with(world, enemy_picks);
    randomize_damage_with(world, rolls);
    choose_action_with(world, action_picks);
    let barks = bark(world);
    let snarl_lines = snarls(world);
    let attacks = attack(world);
    let deaths = death(world);
    let winner = sole_survivor(world);
    TurnReport { barks, snarls: snarl_lines, attacks, deaths, winner }
}

/// One full turn as the loop runs it, drawing from the random source. The
/// result is the pipeline's outcome for some sequence of draws with the
/// documented ranges; whatever was drawn, health and the set of living
/// agents only ever shrink, and the report's winner is the sole survivor
/// of the state the turn leaves behind.
pub fn run_turn(world: &mut World) -> (r: TurnReport)
    requires
        old(world).wf(),
    ensures
        final(world).wf(),
        final(world).agents@.len() == old(world).agents@.len(),
        exists|ep: Seq<usize>, rolls: Seq<u32>, ap: Seq<usize>|
            {
                &&& ep.len() == old(world).agents@.len()
                &&& rolls.len() == old(world).agents@.len()
                &&& ap.len() == old(world).agents@.len()
                &&& (forall|k: int| 0 <= k < rolls.len() ==> 1 <= #[trigger] rolls[k] <= 8)
                &&& final(world).agents@ == #[trigger] turn_post(
                    old(world).agents@,
                    ep,
                    rolls,
                    ap,
                )
                &&& r.barks@ == speakers(
                    turn_mid(old(world).agents@, ep, rolls, ap),
                    Action::Barks,
                )
                &&& r.snarls@ == speakers(
                    turn_mid(old(world).agents@, ep, rolls, ap),
                    Action::Snarls,
                )
                &&& r.attacks@ == attack_events(turn_mid(old(world).agents@, ep, rolls, ap))
                &&& r.deaths@ == doomed(
                    attack_applied(turn_mid(old(world).agents@, ep, rolls, ap)),
                )
            },
        r.winner == winner_of(final(world).agents@),
        (r.winner is Some) == (count_alive_spec(final(world).agents@) == 1),
        forall|i: int|
            0 <= i < old(world).agents@.len() ==> #[trigger] final(world).agents@[i].health <= old(
                world,
            ).agents@[i].health,
        forall|i: int|
            0 <= i < old(world).agents@.len() && #[trigger] final(world).agents@[i].alive ==> old(
                world,
            ).agents@[i].alive,
        forall|i: int|
            0 <= i < old(world).agents@.len() ==> #[trigger] final(world).agents@[i].name == old(
                world,
            ).agents@[i].name,
{
    let ghost s0 = world.agents@;
    let ghost n = s0.len();
    choose_enemy(world);
    let ghost ep = choose|p: Seq<usize>| p.len() == n && world.agents@ == enemies_updated(s0, p);
    let ghost s1 = world.agents@;
    randomize_damage(world);
    let ghost rolls = choose|ro: Seq<u32>|
        ro.len() == n && (forall|k: int| 0 <= k < ro.len() ==> 1 <= #[trigger] ro[k] <= 8)
            && world.agents@ == damages_updated(s1, ro);
    let ghost s2 = world.agents@;
    choose_action(world);
    let ghost ap = choose|p: Seq<usize>| p.len() == n && world.agents@ == actions_updated(s2, p);
    let barks = bark(world);
    let snarl_lines = snarls(world);
    let attacks = attack(world);
    let deaths = death(world);
    let winner = sole_survivor(world);
    proof {
        assert(world.agents@ == turn_post(s0, ep, rolls, ap));
        lemma_turn_monotonic(s0, ep, rolls, ap);
    }
    TurnReport { barks, snarls: snarl_lines, attacks, deaths, winner }
}

/// The whole encounter: up to `turns` turns of the pipeline, stopping
/// early once at most one agent remains alive. At most `turns` reports
/// come back, one per turn run; a run cut short before its budget ends
/// with at most one agent alive; and across the whole run no agent's
/// health ever rises, no dead agent returns, and the population never
/// grows or changes its names.
#[verifier::loop_isolation(false)]
pub fn run_simulation(world: &mut World, turns: u32) -> (reports: Vec<TurnReport>)
    requires
        old(world).wf(),
    ensures
        final(world).wf(),
        final(world).agents@.len() == old(world).agents@.len(),
        exists|draws: Seq<TurnDraws>|
            #[trigger] simulation_trace(
                old(world).agents@,
                draws,
                reports@,
                final(world).agents@,
            ),
        reports@.len() <= turns,
        reports@.len() < turns ==> count_alive_spec(final(world).agents@) <= 1,
        turns > 0 ==> reports@.len() >= 1,
        reports@.len() > 0 ==> reports@.last().winner == winner_of(final(world).agents@),
        reports@.len() > 0 ==> (reports@.last().winner is Some) == (count_alive_spec(
            final(world).agents@,
        ) == 1),
        forall|i: int|
            0 <= i < old(world).agents@.len() ==> #[trigger] final(world).agents@[i].health <= old(
                world,
            ).agents@[i].health,
        forall|i: int|
            0 <= i < old(world).agents@.len() && #[trigger] final(world).agents@[i].alive ==> old(
                world,
            ).agents@[i].alive,
        forall|i: int|
            0 <= i < old(world).agents@.len() ==> #[trigger] final(world).agents@[i].name == old(
                world,
            ).agents@[i].name,
{
    let ghost s0 = world.agents@;
    let ghost n = s0.len();
    let mut reports: Vec<TurnReport> = Vec::new();
    let ghost mut draws: Seq<TurnDraws> = Seq::empty();
    let mut t: u32 = 0;
    let mut done: bool = false;
    while t < turns && !done
        invariant
            world.wf(),
            world.agents@.len() == n,
            0 <= t <= turns,
            reports@.len() == t,
            draws.len() == t,
            world.agents@ == sim_state(s0, draws, t as int),
            forall|i: int| 0 <= i < draws.len() ==> draws_wf(#[trigger] draws[i], n),
            forall|i: int|
                0 <= i < reports@.len() ==> #[trigger] report_matches(
                    reports@[i],
                    sim_state(s0, draws, i),
                    draws[i],
                ),
            forall|i: int|
                0 <= i < t - 1 ==> count_alive_spec(#[trigger] sim_state(s0, draws, i + 1)) >= 2,
            t > 0 && !done ==> count_alive_spec(world.agents@) >= 2,
            done ==> t >= 1,
            done ==> count_alive_spec(world.agents@) <= 1,
            t > 0 ==> reports@.last().winner == winner_of(world.agents@),
            t > 0 ==> (reports@.last().winner is Some) == (count_alive_spec(world.agents@) == 1),
            forall|i: int|
                0 <= i < n ==> #[trigger] world.agents@[i].health <= s0[i].health,
            forall|i: int| 0 <= i < n && #[trigger] world.agents@[i].alive ==> s0[i].alive,
            forall|i: int| 0 <= i < n ==> #[trigger] world.agents@[i].name == s0[i].name,
        decreases turns - t,
    {
        let ghost prev = world.agents@;
        let ghost prev_draws = draws;
        let ghost prev_reports = reports@;
        assert(t > 0 ==> count_alive_spec(prev) >= 2);
        let rep = run_turn(world);
        proof {
            let (ep, rolls, ap): (Seq<usize>, Seq<u32>, Seq<usize>) = choose|
                ep: Seq<usize>,
                rolls: Seq<u32>,
                ap: Seq<usize>,
            |
                {
                    &&& ep.len() == n
                    &&& rolls.len() == n
                    &&& ap.len() == n
                    &&& (forall|k: int| 0 <= k < rolls.len() ==> 1 <= #[trigger] rolls[k] <= 8)
                    &&& world.agents@ == #[trigger] turn_post(prev, ep, rolls, ap)
                    &&& rep.barks@ == speakers(turn_mid(prev, ep, rolls, ap), Action::Barks)
                    &&& rep.snarls@ == speakers(turn_mid(prev, ep, rolls, ap), Action::Snarls)
                    &&& rep.attacks@ == attack_events(turn_mid(prev, ep, rolls, ap))
                    &&& rep.deaths@ == doomed(attack_applied(turn_mid(prev, ep, rolls, ap)))
                };
            let d: TurnDraws = (ep, rolls, ap);
            assert forall|i: int| 0 <= i <= prev_draws.len() implies sim_state(
                s0,
                prev_draws.push(d),
                i,
            ) == sim_state(s0, prev_draws, i) by {
                lemma_sim_state_push(s0, prev_draws, d, i);
            }
            draws = prev_draws.push(d);
            assert(sim_state(s0, draws, t as int) == prev);
            assert(sim_state(s0, draws, t as int + 1) == world.agents@);
            assert(report_matches(rep, prev, d));
        }
        reports.push(rep);
        t = t + 1;
        proof {
            assert forall|i: int| 0 <= i < reports@.len() implies #[trigger] report_matches(
                reports@[i],
                sim_state(s0, draws, i),
                draws[i],
            ) by {
                if i < reports@.len() - 1 {
                    assert(reports@[i] == prev_reports[i]);
                    assert(draws[i] == prev_draws[i]);
                    assert(sim_state(s0, draws, i) == sim_state(s0, prev_draws, i));
                    assert(report_matches(
                        prev_reports[i],
                        sim_state(s0, prev_draws, i),
                        prev_draws[i],
                    ));
                } else {
                    assert(reports@[i] == rep);
                    assert(sim_state(s0, draws, i) == prev);
                }
            }
            assert forall|i: int| 0 <= i < t - 1 implies count_alive_spec(
                #[trigger] sim_state(s0, draws, i + 1),
            ) >= 2 by {
                if i + 1 < t - 1 {
                    assert(count_alive_spec(sim_state(s0, prev_draws, i + 1)) >= 2);
                    assert(sim_state(s0, draws, i + 1) == sim_state(s0, prev_draws, i + 1));
                } else {
                    assert(sim_state(s0, draws, i + 1) == prev);
                }
            }
        }
        let alive_now: usize = world.count_alive();
        if alive_now <= 1 {
            done = true;
        }
    }
    assert(simulation_trace(s0, draws, reports@, world.agents@));
    reports
}

} // verus!
