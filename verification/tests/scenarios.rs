//! Whole-turn and whole-encounter scenarios.

use street_fight::agent::{Attacker, Enemy};
use street_fight::combat::death;
use street_fight::sim::{run_simulation, run_turn_with};
use street_fight::targeting::choose_enemy_with;
use street_fight::world::populate_world;

fn dogs(names: &[&str]) -> street_fight::world::World {
    let names: Vec<String> = names.iter().map(|s| String::from(*s)).collect();
    populate_world(&names)
}

#[test]
fn two_dogs_survive_a_single_turn() {
    let mut w = dogs(&["Rex", "Fluffy"]);
    let reports = run_simulation(&mut w, 1);
    // A single hit deals at most 8 damage against 10 health, so death in
    // one turn from one attacker is impossible: both must still be alive.
    assert_eq!(reports.len(), 1);
    assert!(w.agents[0].alive);
    assert!(w.agents[1].alive);
    assert!(w.agents[0].health >= 2);
    assert!(w.agents[1].health >= 2);
    assert_eq!(reports[0].winner, None);
}

#[test]
fn mutual_lethal_attacks_resolve_in_one_turn() {
    let mut w = dogs(&["A", "B", "C"]);
    // Draws force A and B onto each other (first candidate each), every
    // agent onto the attack behaviour, and a lethal roll of ten.
    let reports = run_turn_with(&mut w, &vec![0, 0, 0], &vec![10, 10, 10], &vec![2, 2, 2]);
    assert_eq!(reports.deaths, vec![0, 1]);
    assert!(!w.agents[0].alive);
    assert!(!w.agents[1].alive);
    assert!(w.agents[2].alive);
    assert_eq!(w.agents[0].health, 0);
    assert_eq!(w.agents[1].health, 0);
    // C fought someone this turn but nobody aimed at C.
    assert_eq!(w.agents[2].health, 10);
    assert_eq!(reports.attacks.len(), 3);
    // Both lethal blows are removed in the same turn's death pass, so the
    // survivor is announced at once.
    assert_eq!(reports.winner, Some(2));
}

#[test]
fn lone_survivor_is_announced_and_loop_stops() {
    let mut w = dogs(&["Rex", "Fluffy"]);
    w.agents[0].health = 0;
    let gone = death(&mut w);
    assert_eq!(gone, vec![0]);
    let reports = run_simulation(&mut w, 5);
    // The loop runs its turn, finds exactly one living agent, announces
    // it, and does not use the remaining budget.
    assert_eq!(reports.len(), 1);
    assert_eq!(reports[0].winner, Some(1));
    assert!(w.agents[1].alive);
    assert_eq!(w.agents[1].health, 10);
}

#[test]
fn retaliation_overrides_a_valid_target() {
    let mut w = dogs(&["X", "Y", "Z"]);
    // X already holds a valid target Y, but Z bit X last turn.
    w.agents[0].enemy = Enemy(Some(1));
    w.agents[0].attacker = Attacker(Some(2));
    choose_enemy_with(&mut w, &vec![0, 0, 0]);
    assert_eq!(w.agents[0].enemy.entity(), Some(2));
}

#[test]
fn retaliation_ignores_a_dead_attacker() {
    let mut w = dogs(&["X", "Y", "Z"]);
    w.agents[0].enemy = Enemy(Some(1));
    w.agents[0].attacker = Attacker(Some(2));
    w.agents[2].alive = false;
    choose_enemy_with(&mut w, &vec![0, 0, 0]);
    // The attacker died, so the kept target stands.
    assert_eq!(w.agents[0].enemy.entity(), Some(1));
}

#[test]
fn simulation_stays_within_budget_and_never_grows() {
    let mut w = dogs(&["A", "B", "C", "D", "E"]);
    let reports = run_simulation(&mut w, 4);
    assert!(reports.len() <= 4);
    assert!(!reports.is_empty());
    assert_eq!(w.agents.len(), 5);
    let alive = w.agents.iter().filter(|a| a.alive).count();
    assert!(alive <= 5);
    for a in &w.agents {
        assert!(a.health <= 10);
    }
    // A run cut short must have ended with at most one agent alive.
    if reports.len() < 4 {
        assert!(alive <= 1);
    }
}

#[test]
fn zero_turns_run_nothing() {
    let mut w = dogs(&["Rex", "Fluffy"]);
    let reports = run_simulation(&mut w, 0);
    assert!(reports.is_empty());
    assert!(w.agents[0].alive && w.agents[1].alive);
}

#[test]
fn turn_report_carries_pre_attack_narration() {
    let mut w = dogs(&["A", "B"]);
    // Both target each other; draws give A barking and B attacking with a
    // roll of three.
    let report = run_turn_with(&mut w, &vec![0, 0], &vec![3, 3], &vec![0, 2]);
    assert_eq!(report.barks, vec![(0, 10)]);
    assert!(report.snarls.is_empty());
    assert_eq!(report.attacks.len(), 1);
    assert_eq!(report.attacks[0].attacker, 1);
    assert_eq!(report.attacks[0].target, 0);
    assert_eq!(report.attacks[0].damage, 3);
    assert_eq!(report.attacks[0].target_health, 10);
    assert_eq!(w.agents[0].health, 7);
    assert!(report.deaths.is_empty());
    assert_eq!(report.winner, None);
}
