//! A turn-based combat simulation among a population of agents. Each turn,
//! every living agent acquires a target, rolls damage, chooses a behaviour,
//! and attackers damage their targets; agents reduced to zero health lose
//! their alive marker, and the simulation halts when at most one agent
//! remains alive or the turn budget runs out.

pub mod agent;
pub mod world;
pub mod targeting;
pub mod combat;
pub mod sim;
mod rng;

use vstd::prelude::*;

verus! {

} // verus!
