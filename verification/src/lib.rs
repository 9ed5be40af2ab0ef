//! Combat-and-destruction core of an arcade shooter, modelled over
//! fixed-point integer coordinates and verified with Verus.
//!
//! The world state, the damage/death/fragmentation flow, the reward
//! dispatch, the pickup claim/attract loop, the lifetime reaper and the
//! deferred command queue live here. Rendering, input polling and the
//! physics engine are outside collaborators: they hand these systems
//! plain values (positions, contact pairs, frame deltas) and apply the
//! commands the systems emit.

pub mod asteroids;
pub mod common;
pub mod geom;
pub mod player;
pub mod projectiles;
pub mod rng;
pub mod scenes;
pub mod score;
pub mod shooter;
pub mod spawner;
pub mod world;

use vstd::prelude::*;

verus! {

} // verus!
