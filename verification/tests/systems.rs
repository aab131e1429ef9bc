//! Unit tests for the individual per-turn systems, driven with injected
//! deterministic draws.

use street_fight::agent::{Action, Attacker, Enemy};
use street_fight::combat::{
    attack, bark, choose_action_with, death, randomize_damage, randomize_damage_with, snarls,
};
use street_fight::sim::sole_survivor;
use street_fight::targeting::choose_enemy_with;
use street_fight::world::populate_world;

fn three_dogs() -> street_fight::world::World {
    let names = vec![
        String::from("Rex"),
        String::from("Fluffy"),
        String::from("Spot"),
    ];
    populate_world(&names)
}

#[test]
fn populate_defaults() {
    let w = three_dogs();
    assert_eq!(w.agents.len(), 3);
    for a in &w.agents {
        assert!(a.alive);
        assert_eq!(a.health, 10);
        assert_eq!(a.action, Action::Snarls);
        assert_eq!(a.attacker.entity(), None);
        assert_eq!(a.enemy.entity(), None);
        assert_eq!(a.damage, 0);
    }
    assert_eq!(w.agents[0].name, "Rex");
    assert_eq!(w.agents[1].name, "Fluffy");
    assert_eq!(w.agents[2].name, "Spot");
    assert!(w.wf_exec());
}

#[test]
fn aggression_covers_three_behaviours() {
    assert_eq!(Action::random_aggression(0), Action::Barks);
    assert_eq!(Action::random_aggression(1), Action::Snarls);
    assert_eq!(Action::random_aggression(2), Action::Attack);
    assert_eq!(Action::idle(), Action::Idle);
}

#[test]
fn attacker_and_enemy_accessors() {
    let a = Attacker::new_none();
    assert!(a.is_none());
    assert!(!a.is_some());
    assert_eq!(a.entity(), None);
    let e = Enemy(Some(4));
    assert!(e.is_some());
    assert!(!e.is_none());
    assert_eq!(e.entity(), Some(4));
    let a2 = Attacker::from(Some(7));
    assert_eq!(a2.entity(), Some(7));
    let e2 = Enemy::from(None);
    assert!(e2.is_none());
}

#[test]
fn stale_target_cleared_and_reassigned() {
    let mut w = three_dogs();
    w.agents[2].alive = false;
    w.agents[0].enemy = Enemy(Some(2));
    choose_enemy_with(&mut w, &vec![0, 0, 0]);
    // The dead target is cleared, and the fallback pass must pick the one
    // remaining living candidate, never the agent itself.
    assert_eq!(w.agents[0].enemy.entity(), Some(1));
    assert_eq!(w.agents[1].enemy.entity(), Some(0));
    assert_eq!(w.agents[2].enemy.entity(), None);
}

#[test]
fn last_agent_standing_gets_no_target() {
    let mut w = three_dogs();
    w.agents[0].alive = false;
    w.agents[2].alive = false;
    choose_enemy_with(&mut w, &vec![0, 0, 0]);
    assert_eq!(w.agents[1].enemy.entity(), None);
}

#[test]
fn targeting_idempotent_with_fresh_draws() {
    let mut w = three_dogs();
    w.agents[1].attacker = Attacker(Some(2));
    choose_enemy_with(&mut w, &vec![0, 0, 0]);
    let first: Vec<Option<usize>> = w.agents.iter().map(|a| a.enemy.entity()).collect();
    // A second run with different draws must leave every assignment alone.
    choose_enemy_with(&mut w, &vec![1, 1, 1]);
    let second: Vec<Option<usize>> = w.agents.iter().map(|a| a.enemy.entity()).collect();
    assert_eq!(first, second);
}

#[test]
fn damage_rolls_assigned_to_living_agents() {
    let mut w = three_dogs();
    w.agents[1].alive = false;
    randomize_damage_with(&mut w, &vec![3, 7, 5]);
    assert_eq!(w.agents[0].damage, 3);
    assert_eq!(w.agents[1].damage, 0);
    assert_eq!(w.agents[2].damage, 5);
}

#[test]
fn random_damage_rolls_stay_in_range() {
    let mut w = three_dogs();
    randomize_damage(&mut w);
    for a in &w.agents {
        assert!(a.damage >= 1 && a.damage <= 8);
    }
}

#[test]
fn action_selection_depends_on_target() {
    let mut w = three_dogs();
    w.agents[0].enemy = Enemy(Some(1));
    choose_action_with(&mut w, &vec![2, 0, 0]);
    assert_eq!(w.agents[0].action, Action::Attack);
    // No target: idle, whatever the draw.
    assert_eq!(w.agents[1].action, Action::Idle);
    assert_eq!(w.agents[2].action, Action::Idle);
}

#[test]
fn narration_lists_speakers_in_order() {
    let mut w = three_dogs();
    w.agents[0].action = Action::Barks;
    w.agents[1].action = Action::Snarls;
    w.agents[2].action = Action::Barks;
    w.agents[2].alive = false;
    w.agents[0].health = 7;
    let barks = bark(&w);
    let snarl_lines = snarls(&w);
    assert_eq!(barks, vec![(0, 7)]);
    assert_eq!(snarl_lines, vec![(1, 10)]);
}

#[test]
fn attack_snapshots_health_before_any_damage() {
    let mut w = three_dogs();
    w.agents[0].enemy = Enemy(Some(1));
    w.agents[1].enemy = Enemy(Some(0));
    w.agents[0].action = Action::Attack;
    w.agents[1].action = Action::Attack;
    w.agents[0].damage = 5;
    w.agents[1].damage = 2;
    w.agents[1].health = 3;
    let events = attack(&mut w);
    assert_eq!(events.len(), 2);
    assert_eq!(events[0].attacker, 0);
    assert_eq!(events[0].target, 1);
    assert_eq!(events[0].damage, 5);
    assert_eq!(events[0].attacker_health, 10);
    assert_eq!(events[0].target_health, 3);
    assert_eq!(events[1].attacker, 1);
    assert_eq!(events[1].target, 0);
    assert_eq!(events[1].damage, 2);
    // Both events report the pre-turn healths, simultaneous-combat style.
    assert_eq!(events[1].attacker_health, 3);
    assert_eq!(events[1].target_health, 10);
    // Damage saturates at zero and the attacker is recorded on the target.
    assert_eq!(w.agents[1].health, 0);
    assert_eq!(w.agents[0].health, 8);
    assert_eq!(w.agents[0].attacker.entity(), Some(1));
    assert_eq!(w.agents[1].attacker.entity(), Some(0));
}

#[test]
fn two_attackers_one_target_last_recorded() {
    let mut w = three_dogs();
    w.agents[0].enemy = Enemy(Some(1));
    w.agents[2].enemy = Enemy(Some(1));
    w.agents[0].action = Action::Attack;
    w.agents[2].action = Action::Attack;
    w.agents[0].damage = 4;
    w.agents[2].damage = 5;
    let events = attack(&mut w);
    assert_eq!(events.len(), 2);
    // Both hits land in event order; the later attacker is the one kept.
    assert_eq!(w.agents[1].health, 1);
    assert_eq!(w.agents[1].attacker.entity(), Some(2));
    // Health never rises: the untargeted agents are untouched.
    assert_eq!(w.agents[0].health, 10);
    assert_eq!(w.agents[2].health, 10);
}

#[test]
fn attack_on_dead_target_is_dropped() {
    let mut w = three_dogs();
    w.agents[0].enemy = Enemy(Some(1));
    w.agents[0].action = Action::Attack;
    w.agents[0].damage = 6;
    w.agents[1].alive = false;
    let events = attack(&mut w);
    assert!(events.is_empty());
    assert_eq!(w.agents[1].health, 10);
}

#[test]
fn death_removes_only_agents_at_zero() {
    let mut w = three_dogs();
    w.agents[0].health = 0;
    w.agents[2].health = 0;
    w.agents[2].alive = false;
    let gone = death(&mut w);
    // Only the living agent at zero health dies this pass; the already
    // dead one is not reported again.
    assert_eq!(gone, vec![0]);
    assert!(!w.agents[0].alive);
    assert!(w.agents[1].alive);
    assert!(!w.agents[2].alive);
    assert_eq!(w.agents[0].health, 0);
}

#[test]
fn sole_survivor_needs_exactly_one() {
    let mut w = three_dogs();
    assert_eq!(sole_survivor(&w), None);
    assert_eq!(w.count_alive(), 3);
    w.agents[0].alive = false;
    w.agents[2].alive = false;
    assert_eq!(sole_survivor(&w), Some(1));
    assert_eq!(w.count_alive(), 1);
    w.agents[1].alive = false;
    assert_eq!(sole_survivor(&w), None);
    assert_eq!(w.count_alive(), 0);
}
