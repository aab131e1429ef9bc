//! The per-turn systems that follow targeting: the damage roll, the
//! behaviour selection, the two read-only narration observers, the attack
//! resolution, and the death system.

use vstd::prelude::*;
use crate::agent::{Action, Agent, Attacker};
use crate::world::{agent_wf, is_alive, world_wf, World};
use crate::rng::rng_range;

verus! {

/// `a` with its damage roll replaced.
pub open spec fn with_damage(a: Agent, d: u32) -> Agent {
    Agent {
        alive: a.alive,
        name: a.name,
        health: a.health,
        action: a.action,
        attacker: a.attacker,
        enemy: a.enemy,
        damage: d,
    }
}

/// `a` with its behaviour replaced.
pub open spec fn with_action(a: Agent, act: Action) -> Agent {
    Agent {
        alive: a.alive,
        name: a.name,
        health: a.health,
        action: act,
        attacker: a.attacker,
        enemy: a.enemy,
        damage: a.damage,
    }
}

/// The population after the damage roll system: every living agent carries
/// its fresh roll, every dead agent is untouched.
pub open spec fn damages_updated(s: Seq<Agent>, rolls: Seq<u32>) -> Seq<Agent> {
    Seq::new(
        s.len(),
        |i: int|
            if s[i].alive {
                with_damage(s[i], rolls[i])
            } else {
                s[i]
            },
    )
}

/// The behaviour the selection system gives agent `i`: one of the three
/// aggressive behaviours, by its draw, when it has a target, else idle.
pub open spec fn selected_action(s: Seq<Agent>, i: int, pick: nat) -> Action {
    if s[i].enemy.0 is Some {
        Action::aggression_spec(pick)
    } else {
        Action::Idle
    }
}

/// The population after the behaviour selection system.
pub open spec fn actions_updated(s: Seq<Agent>, picks: Seq<usize>) -> Seq<Agent> {
    Seq::new(
        s.len(),
        |i: int|
            if s[i].alive {
                with_action(s[i], selected_action(s, i, picks[i] as nat))
            } else {
                s[i]
            },
    )
}

/// The narration lines owed to behaviour `act` among the first `n` agents:
/// one `(agent, health)` pair per living agent with that behaviour, in
/// index order.
pub open spec fn speakers_upto(s: Seq<Agent>, act: Action, n: int) -> Seq<(usize, u32)>
    decreases n,
{
    if n <= 0 {
        Seq::empty()
    } else {
        speakers_upto(s, act, n - 1) + if s[n - 1].alive && s[n - 1].action == act {
            seq![((n - 1) as usize, s[n - 1].health)]
        } else {
            Seq::empty()
        }
    }
}

pub open spec fn speakers(s: Seq<Agent>, act: Action) -> Seq<(usize, u32)> {
    speakers_upto(s, act, s.len() as int)
}

/// Assigns every living agent a fresh roll, dead agents untouched. The
/// rolls come one per agent, by index; an agent that does not attack this
/// turn simply leaves its roll unused.
#[verifier::loop_isolation(false)]
pub fn randomize_damage_with(world: &mut World, rolls: &Vec<u32>)
    requires
        rolls@.len() == old(world).agents@.len(),
    ensures
        final(world).agents@ == damages_updated(old(world).agents@, rolls@),
        old(world).wf() ==> final(world).wf(),
{
    proof {
        if world_wf(world.agents@) {
            lemma_roll_keeps_wf(world.agents@, rolls@);
        }
    }
    let ghost s0 = world.agents@;
    let n: usize = world.agents.len();
    let mut i: usize = 0;
    while i < n
        invariant
            world.agents@.len() == n,
            0 <= i <= n,
            forall|k: int|
                0 <= k < n ==> #[trigger] world.agents@[k] == (if k < i && s0[k].alive {
                    with_damage(s0[k], rolls@[k])
                } else {
                    s0[k]
                }),
        decreases n - i,
    {
        if world.agents[i].alive {
            world.agents[i].damage = rolls[i];
        }
        i = i + 1;
    }
    assert(world.agents@ =~= damages_updated(s0, rolls@));
}

/// The damage roll system as the turn loop runs it: every living agent
/// draws uniformly from the closed range 1 to 8.
#[verifier::loop_isolation(false)]
pub fn randomize_damage(world: &mut World)
    ensures
        final(world).agents@.len() == old(world).agents@.len(),
        exists|rolls: Seq<u32>|
            rolls.len() == old(world).agents@.len() && (forall|k: int|
                0 <= k < rolls.len() ==> 1 <= #[trigger] rolls[k] <= 8) && final(world).agents@
                == #[trigger] damages_updated(old(world).agents@, rolls),
        old(world).wf() ==> final(world).wf(),
{
    let ghost s0 = world.agents@;
    let n: usize = world.agents.len();
    let mut rolls: Vec<u32> = Vec::new();
    let mut i: usize = 0;
    while i < n
        invariant
            world.agents@ == s0,
            0 <= i <= n,
            rolls@.len() == i,
            forall|k: int| 0 <= k < i ==> 1 <= #[trigger] rolls@[k] <= 8,
        decreases n - i,
    {
        let d: usize = rng_range(1, 8);
        rolls.push(d as u32);
        i = i + 1;
    }
    randomize_damage_with(world, &rolls);
    assert(world.agents@ == damages_updated(s0, rolls@));
}

/// Gives every living agent with a target one of the three aggressive
/// behaviours, selected by its draw, and every living agent without one
/// the idle behaviour. Dead agents are untouched.
#[verifier::loop_isolation(false)]
pub fn choose_action_with(world: &mut World, picks: &Vec<usize>)
    requires
        picks@.len() == old(world).agents@.len(),
    ensures
        final(world).agents@ == actions_updated(old(world).agents@, picks@),
        old(world).wf() ==> final(world).wf(),
{
    proof {
        if world_wf(world.agents@) {
            lemma_pick_keeps_wf(world.agents@, picks@);
        }
    }
    let ghost s0 = world.agents@;
    let n: usize = world.agents.len();
    let mut i: usize = 0;
    while i < n
        invariant
            world.agents@.len() == n,
            0 <= i <= n,
            forall|k: int|
                0 <= k < n ==> #[trigger] world.agents@[k] == (if k < i && s0[k].alive {
                    with_action(s0[k], selected_action(s0, k, picks@[k] as nat))
                } else {
                    s0[k]
                }),
        decreases n - i,
    {
        if world.agents[i].alive {
            if world.agents[i].enemy.is_some() {
                world.agents[i].action = Action::random_aggression(picks[i]);
            } else {
                world.agents[i].action = Action::idle();
            }
        }
        i = i + 1;
    }
    assert(world.agents@ =~= actions_updated(s0, picks@));
}

/// The behaviour selection system as the turn loop runs it: one uniform
/// draw over the three aggressive behaviours per living agent that has a
/// target.
#[verifier::loop_isolation(false)]
pub fn choose_action(world: &mut World)
    ensures
        final(world).agents@.len() == old(world).agents@.len(),
        exists|picks: Seq<usize>|
            picks.len() == old(world).agents@.len() && final(world).agents@
                == #[trigger] actions_updated(old(world).agents@, picks),
        old(world).wf() ==> final(world).wf(),
{
    let ghost s0 = world.agents@;
    let n: usize = world.agents.len();
    let mut picks: Vec<usize> = Vec::new();
    let mut i: usize = 0;
    while i < n
        invariant
            world.agents@ == s0,
            0 <= i <= n,
            picks@.len() == i,
        decreases n - i,
    {
        let p: usize = rng_range(0, 2);
        picks.push(p);
        i = i + 1;
    }
    choose_action_with(world, &picks);
    assert(world.agents@ == actions_updated(s0, picks@));
}

/// A fresh damage roll touches no reference: well-formedness survives it.
proof fn lemma_roll_keeps_wf(s: Seq<Agent>, rolls: Seq<u32>)
    requires
        world_wf(s),
        rolls.len() == s.len(),
    ensures
        world_wf(damages_updated(s, rolls)),
{
    let t = damages_updated(s, rolls);
    assert forall|k: int| 0 <= k < t.len() implies agent_wf(#[trigger] t[k], k, t.len() as int) by {
        assert(agent_wf(s[k], k, s.len() as int));
    }
}

/// A fresh behaviour touches no reference: well-formedness survives it.
proof fn lemma_pick_keeps_wf(s: Seq<Agent>, picks: Seq<usize>)
    requires
        world_wf(s),
        picks.len() == s.len(),
    ensures
        world_wf(actions_updated(s, picks)),
{
    let t = actions_updated(s, picks);
    assert forall|k: int| 0 <= k < t.len() implies agent_wf(#[trigger] t[k], k, t.len() as int) by {
        assert(agent_wf(s[k], k, s.len() as int));
    }
}

/// Read-only narration observer: the bark lines owed this turn, one
/// `(agent, health)` pair per living agent whose behaviour is barking,
/// in index order.
#[verifier::loop_isolation(false)]
pub fn bark(world: &World) -> (lines: Vec<(usize, u32)>)
    ensures
        lines@ == speakers(world.agents@, Action::Barks),
{
    speak_lines(world, Action::Barks)
}

/// Read-only narration observer: the snarl lines owed this turn, as `bark`.
#[verifier::loop_isolation(false)]
pub fn snarls(world: &World) -> (lines: Vec<(usize, u32)>)
    ensures
        lines@ == speakers(world.agents@, Action::Snarls),
{
    speak_lines(world, Action::Snarls)
}

/// One attack relation of the current turn, with the attacker's and the
/// target's health as observed before any of this turn's damage lands, so
/// that two attacks on one target both report the pre-turn health.
#[derive(Clone, Copy, Debug, PartialEq, Eq, Structural)]
pub struct AttackEvent {
    pub attacker: usize,
    pub target: usize,
    pub damage: u32,
    pub attacker_health: u32,
    pub target_health: u32,
}

/// The attack events among the first `n` agents: one per living agent with
/// the attack behaviour and a target that is currently alive, in index
/// order of the attacker.
pub open spec fn attack_events_upto(s: Seq<Agent>, n: int) -> Seq<AttackEvent>
    decreases n,
{
    if n <= 0 {
        Seq::empty()
    } else {
        attack_events_upto(s, n - 1) + event_of(s, n - 1)
    }
}

/// The zero or one events agent `k` contributes.
pub open spec fn event_of(s: Seq<Agent>, k: int) -> Seq<AttackEvent> {
    if s[k].alive && s[k].action == Action::Attack && (s[k].enemy.0 matches Some(t) && is_alive(
        s,
        t as int,
    )) {
        seq![
            (AttackEvent {
                attacker: k as usize,
                target: s[k].enemy.0->0,
                damage: s[k].damage,
                attacker_health: s[k].health,
                target_health: s[s[k].enemy.0->0 as int].health,
            }),
        ]
    } else {
        Seq::empty()
    }
}

pub open spec fn attack_events(s: Seq<Agent>) -> Seq<AttackEvent> {
    attack_events_upto(s, s.len() as int)
}

/// The damage the events aim at agent `t`, summed.
pub open spec fn total_damage(evts: Seq<AttackEvent>, t: int) -> int
    decreases evts.len(),
{
    if evts.len() == 0 {
        0
    } else {
        total_damage(evts.drop_last(), t) + if evts.last().target == t {
            evts.last().damage as int
        } else {
            0int
        }
    }
}

/// No turn's worth of hits is a gain: the summed damage is never negative.
pub proof fn lemma_total_damage_nonneg(evts: Seq<AttackEvent>, t: int)
    ensures
        total_damage(evts, t) >= 0,
    decreases evts.len(),
{
    if evts.len() > 0 {
        lemma_total_damage_nonneg(evts.drop_last(), t);
    }
}

/// The attacker recorded on agent `t` once the events are applied in
/// order: the attacker of the last event aimed at it, or the previous
/// record when none is.
pub open spec fn last_attacker(evts: Seq<AttackEvent>, t: int, prev: Attacker) -> Attacker
    decreases evts.len(),
{
    if evts.len() == 0 {
        prev
    } else if evts.last().target == t {
        Attacker(Some(evts.last().attacker))
    } else {
        last_attacker(evts.drop_last(), t, prev)
    }
}

/// Subtraction saturating at zero: what each landed hit does to a health
/// value, and, summed, what a turn's worth of hits does.
pub open spec fn sub0(h: int, d: int) -> int {
    if h > d {
        h - d
    } else {
        0
    }
}

/// `a` after this turn's hits on it: its health less the damage aimed at
/// it, saturating at zero, and the record of who hit it last.
pub open spec fn with_hit(a: Agent, h: u32, att: Attacker) -> Agent {
    Agent {
        alive: a.alive,
        name: a.name,
        health: h,
        action: a.action,
        attacker: att,
        enemy: a.enemy,
        damage: a.damage,
    }
}

/// The population once every event of the turn has been applied, in event
/// order. An agent no event aims at is untouched.
pub open spec fn attack_applied(s: Seq<Agent>) -> Seq<Agent> {
    Seq::new(
        s.len(),
        |t: int|
            with_hit(
                s[t],
                sub0(s[t].health as int, total_damage(attack_events(s), t)) as u32,
                last_attacker(attack_events(s), t, s[t].attacker),
            ),
    )
}

/// Every event's endpoints lie in the population, attack a living target
/// from a living attacker, and never aim an agent at itself.
pub proof fn lemma_events_props(s: Seq<Agent>, n: int)
    requires
        world_wf(s),
        0 <= n <= s.len(),
        s.len() <= usize::MAX,
    ensures
        forall|m: int|
            0 <= m < attack_events_upto(s, n).len() ==> {
                let e = #[trigger] attack_events_upto(s, n)[m];
                &&& e.attacker < n
                &&& is_alive(s, e.attacker as int)
                &&& is_alive(s, e.target as int)
                &&& e.target != e.attacker
                &&& e.damage == s[e.attacker as int].damage
                &&& e.attacker_health == s[e.attacker as int].health
                &&& e.target_health == s[e.target as int].health
                &&& s[e.attacker as int].enemy.0 == Some(e.target)
            },
    decreases n,
{
    if n > 0 {
        lemma_events_props(s, n - 1);
        let c = attack_events_upto(s, n);
        let p = attack_events_upto(s, n - 1);
        assert(agent_wf(s[n - 1], n - 1, s.len() as int));
        assert forall|m: int| 0 <= m < c.len() implies {
            let e = #[trigger] c[m];
            &&& e.attacker < n
            &&& is_alive(s, e.attacker as int)
            &&& is_alive(s, e.target as int)
            &&& e.target != e.attacker
            &&& e.damage == s[e.attacker as int].damage
            &&& e.attacker_health == s[e.attacker as int].health
            &&& e.target_health == s[e.target as int].health
            &&& s[e.attacker as int].enemy.0 == Some(e.target)
        } by {
            if m < p.len() {
                assert(c[m] == p[m]);
            } else {
                assert(c[m] == event_of(s, n - 1)[0]);
            }
        }
    }
}

/// Attack resolution. Phase one scans the population once and collects
/// every event of the turn, with pre-turn health snapshots; phase two
/// applies the events in order, saturating each subtraction and recording
/// on each target the attacker applied last. The returned events are the
/// turn's complete report. No agent's health increases.
#[verifier::loop_isolation(false)]
pub fn attack(world: &mut World) -> (evts: Vec<AttackEvent>)
    requires
        old(world).wf(),
    ensures
        evts@ == attack_events(old(world).agents@),
        final(world).agents@ == attack_applied(old(world).agents@),
        final(world).wf(),
        forall|t: int|
            0 <= t < old(world).agents@.len() ==> #[trigger] final(world).agents@[t].health <= old(
                world,
            ).agents@[t].health,
{
    let ghost s0 = world.agents@;
    let n: usize = world.agents.len();

    // Phase one: collect every event of the turn before any mutation, so
    // no attack's resolution can affect another's snapshot.
    let mut evts: Vec<AttackEvent> = Vec::new();
    let mut i: usize = 0;
    while i < n
        invariant
            0 <= i <= n,
            evts@ == attack_events_upto(s0, i as int),
        decreases n - i,
    {
        if world.agents[i].alive && world.agents[i].action == Action::Attack {
            match world.agents[i].enemy.0 {
                Some(t) => {
                    assert(agent_wf(s0[i as int], i as int, n as int));
                    if world.agents[t].alive {
                        evts.push(AttackEvent {
                            attacker: i,
                            target: t,
                            damage: world.agents[i].damage,
                            attacker_health: world.agents[i].health,
                            target_health: world.agents[t].health,
                        });
                    }
                },
                None => {},
            }
        }
        i = i + 1;
    }
    proof {
        lemma_events_props(s0, n as int);
    }

    // Phase two: apply the events in order.
    let m: usize = evts.len();
    let mut e: usize = 0;
    while e < m
        invariant
            0 <= e <= m,
            world.agents@.len() == n,
            forall|t: int|
                0 <= t < n ==> #[trigger] world.agents@[t] == with_hit(
                    s0[t],
                    sub0(s0[t].health as int, total_damage(evts@.take(e as int), t)) as u32,
                    last_attacker(evts@.take(e as int), t, s0[t].attacker),
                ),
        decreases m - e,
    {
        let t: usize = evts[e].target;
        assert(is_alive(s0, t as int));
        let ghost pre = evts@.take(e as int);
        let ghost post = evts@.take(e as int + 1);
        assert(post.drop_last() =~= pre);
        assert(post.last() == evts@[e as int]);
        world.agents[t].health = world.agents[t].health.saturating_sub(evts[e].damage);
        world.agents[t].attacker = Attacker(Some(evts[e].attacker));
        assert forall|k: int| 0 <= k < n implies #[trigger] world.agents@[k] == with_hit(
            s0[k],
            sub0(s0[k].health as int, total_damage(post, k)) as u32,
            last_attacker(post, k, s0[k].attacker),
        ) by {
            lemma_total_damage_nonneg(pre, k);
            lemma_total_damage_nonneg(post, k);
            if k != t {
                assert(total_damage(post, k) == total_damage(pre, k));
                assert(last_attacker(post, k, s0[k].attacker) == last_attacker(
                    pre,
                    k,
                    s0[k].attacker,
                ));
            }
        }
        e = e + 1;
    }
    assert(evts@.take(m as int) =~= evts@);
    assert forall|t: int| 0 <= t < n implies total_damage(evts@, t) >= 0 by {
        lemma_total_damage_nonneg(evts@, t);
    }
    assert(world.agents@ =~= attack_applied(s0));
    assert forall|k: int| 0 <= k < n implies agent_wf(
        #[trigger] world.agents@[k],
        k,
        n as int,
    ) by {
        assert(agent_wf(s0[k], k, n as int));
        lemma_last_attacker_valid(evts@, k, s0[k].attacker, n as int);
    }
    evts
}

/// The record applied last is one of the events' attackers, or the prior
/// record: so it stays inside the population and never names the target.
proof fn lemma_last_attacker_valid(evts: Seq<AttackEvent>, t: int, prev: Attacker, n: int)
    requires
        forall|m: int|
            0 <= m < evts.len() ==> (#[trigger] evts[m].attacker < n && evts[m].target
                != evts[m].attacker),
        prev.0 matches Some(j) ==> j < n && j != t,
    ensures
        last_attacker(evts, t, prev).0 matches Some(j) ==> j < n && j != t,
    decreases evts.len(),
{
    if evts.len() > 0 {
        if evts.last().target == t {
        } else {
            lemma_last_attacker_valid(evts.drop_last(), t, prev, n);
        }
    }
}

/// `a` with its alive marker replaced.
pub open spec fn with_alive(a: Agent, b: bool) -> Agent {
    Agent {
        alive: b,
        name: a.name,
        health: a.health,
        action: a.action,
        attacker: a.attacker,
        enemy: a.enemy,
        damage: a.damage,
    }
}

/// The agents owed a death notice among the first `n`: the living ones at
/// zero health, in index order.
pub open spec fn doomed_upto(s: Seq<Agent>, n: int) -> Seq<usize>
    decreases n,
{
    if n <= 0 {
        Seq::empty()
    } else {
        doomed_upto(s, n - 1) + if s[n - 1].alive && s[n - 1].health == 0 {
            seq![(n - 1) as usize]
        } else {
            Seq::empty()
        }
    }
}

pub open spec fn doomed(s: Seq<Agent>) -> Seq<usize> {
    doomed_upto(s, s.len() as int)
}

/// The population after the death system: the alive marker is removed from
/// every agent at zero health, and from no other; nothing else changes.
/// Death is irreversible because no system ever sets the marker back.
pub open spec fn deaths_applied(s: Seq<Agent>) -> Seq<Agent> {
    Seq::new(s.len(), |k: int| with_alive(s[k], s[k].alive && s[k].health != 0))
}

/// The death system: removes the alive marker from every living agent
/// whose health reached zero, and returns those agents, in index order,
/// for their death notices. It must run last in the turn so the turn's
/// damage is reflected before death is evaluated.
#[verifier::loop_isolation(false)]
pub fn death(world: &mut World) -> (gone: Vec<usize>)
    ensures
        gone@ == doomed(old(world).agents@),
        final(world).agents@ == deaths_applied(old(world).agents@),
        old(world).wf() ==> final(world).wf(),
{
    let ghost s0 = world.agents@;
    let n: usize = world.agents.len();
    let mut gone: Vec<usize> = Vec::new();
    let mut i: usize = 0;
    while i < n
        invariant
            world.agents@.len() == n,
            0 <= i <= n,
            gone@ == doomed_upto(s0, i as int),
            forall|k: int|
                0 <= k < n ==> #[trigger] world.agents@[k] == (if k < i {
                    with_alive(s0[k], s0[k].alive && s0[k].health != 0)
                } else {
                    s0[k]
                }),
        decreases n - i,
    {
        if world.agents[i].alive && world.agents[i].health == 0 {
            gone.push(i);
            world.agents[i].alive = false;
        }
        i = i + 1;
    }
    assert(world.agents@ =~= deaths_applied(s0));
    proof {
        if world_wf(s0) {
            assert forall|k: int| 0 <= k < n implies agent_wf(
                #[trigger] world.agents@[k],
                k,
                n as int,
            ) by {
                assert(agent_wf(s0[k], k, n as int));
            }
        }
    }
    gone
}

#[verifier::loop_isolation(false)]
fn speak_lines(world: &World, act: Action) -> (lines: Vec<(usize, u32)>)
    ensures
        lines@ == speakers(world.agents@, act),
{
    let n: usize = world.agents.len();
    let mut lines: Vec<(usize, u32)> = Vec::new();
    let mut i: usize = 0;
    while i < n
        invariant
            0 <= i <= n,
            lines@ == speakers_upto(world.agents@, act, i as int),
        decreases n - i,
    {
        if world.agents[i].alive && world.agents[i].action == act {
            lines.push((i, world.agents[i].health));
        }
        i = i + 1;
    }
    lines
}

} // verus!
