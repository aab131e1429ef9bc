//! The component types attached to every combatant: its behaviour for the
//! turn, the record of who bit it last, its current target, and the plain
//! per-agent record that bundles them with name, health and damage roll.

use vstd::prelude::*;

verus! {

/// What an agent does this turn. Recomputed every turn: `Idle` when it has
/// no target, otherwise one of the three aggressive behaviours.
#[derive(Clone, Copy, Debug, PartialEq, Eq, Structural)]
pub enum Action {
    Idle,
    Barks,
    Snarls,
    Attack,
}

impl Action {
    /// The aggressive behaviour selected by a draw `pick`: the three
    /// behaviours are numbered `pick % 3 == 0` barks, `1` snarls, `2` attacks.
    pub open spec fn aggression_spec(pick: nat) -> Action {
        if pick % 3 == 0 {
            Action::Barks
        } else if pick % 3 == 1 {
            Action::Snarls
        } else {
            Action::Attack
        }
    }

    /// Maps a draw to an aggressive behaviour; any draw value is accepted,
    /// three consecutive values cover the three behaviours once each.
    pub fn random_aggression(pick: usize) -> (a: Action)
        ensures
            a == Action::aggression_spec(pick as nat),
            a != Action::Idle,
    {
        match pick % 3 {
            0 => Action::Barks,
            1 => Action::Snarls,
            _ => Action::Attack,
        }
    }

    /// The behaviour of an agent without a target.
    pub fn idle() -> (a: Action)
        ensures
            a == Action::Idle,
    {
        Action::Idle
    }
}

/// The last agent that damaged this one, if any; persists across turns until
/// overwritten, and drives the retaliation bias of the targeting passes.
#[derive(Clone, Copy, Debug, PartialEq, Eq)]
pub struct Attacker(pub Option<usize>);

impl Attacker {
    pub fn new_none() -> (r: Attacker)
        ensures
            r.0 is None,
    {
        Attacker(None)
    }

    pub fn entity(&self) -> (r: Option<usize>)
        ensures
            r == self.0,
    {
        self.0
    }

    pub fn is_some(&self) -> (r: bool)
        ensures
            r == (self.0 is Some),
    {
        match self.0 {
            Some(_) => true,
            None => false,
        }
    }

    pub fn is_none(&self) -> (r: bool)
        ensures
            r == (self.0 is None),
    {
        match self.0 {
            Some(_) => false,
            None => true,
        }
    }
}

impl From<Option<usize>> for Attacker {
    fn from(maybe_ent: Option<usize>) -> (r: Self) {
        Attacker(maybe_ent)
    }
}

impl vstd::std_specs::convert::FromSpecImpl<Option<usize>> for Attacker {
    open spec fn obeys_from_spec() -> bool {
        true
    }

    open spec fn from_spec(v: Option<usize>) -> Attacker {
        Attacker(v)
    }
}

/// This agent's current target, if any; cleared or reassigned by the
/// targeting passes at the top of every turn.
#[derive(Clone, Copy, Debug, PartialEq, Eq)]
pub struct Enemy(pub Option<usize>);

impl Enemy {
    pub fn new_none() -> (r: Enemy)
        ensures
            r.0 is None,
    {
        Enemy(None)
    }

    pub fn entity(&self) -> (r: Option<usize>)
        ensures
            r == self.0,
    {
        self.0
    }

    pub fn is_some(&self) -> (r: bool)
        ensures
            r == (self.0 is Some),
    {
        match self.0 {
            Some(_) => true,
            None => false,
        }
    }

    pub fn is_none(&self) -> (r: bool)
        ensures
            r == (self.0 is None),
    {
        match self.0 {
            Some(_) => false,
            None => true,
        }
    }
}

impl From<Option<usize>> for Enemy {
    fn from(maybe_ent: Option<usize>) -> (r: Self) {
        Enemy(maybe_ent)
    }
}

impl vstd::std_specs::convert::FromSpecImpl<Option<usize>> for Enemy {
    open spec fn obeys_from_spec() -> bool {
        true
    }

    open spec fn from_spec(v: Option<usize>) -> Enemy {
        Enemy(v)
    }
}

/// One combatant. An agent is never deleted: death is the removal of the
/// `alive` marker, so stale references to a dead agent can still be detected
/// and cleared by the targeting passes.
#[derive(Debug)]
pub struct Agent {
    /// Present (`true`) while the agent is in play; every per-turn system
    /// skips agents whose marker is absent.
    pub alive: bool,
    /// Assigned at creation, never mutated.
    pub name: String,
    /// Unsigned and reduced only by saturating subtraction: never below zero.
    pub health: u32,
    /// The behaviour chosen for the current turn.
    pub action: Action,
    /// The last agent that damaged this one.
    pub attacker: Attacker,
    /// The current target.
    pub enemy: Enemy,
    /// The damage roll for the current turn.
    pub damage: u32,
}

} // verus!
