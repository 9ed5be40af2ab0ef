//! Scene flow: the game is either at the menu or in a match. The
//! combat systems run only while a match is in progress; entering a
//! match sets up the periodic asteroid spawner, and the player's death
//! returns the game to the menu.

use vstd::prelude::*;

use crate::common::Timer;
use crate::spawner::AsteroidSpawner;
use crate::world::Command;
use crate::world::Entity;
use crate::world::World;

verus! {

/// Period of the asteroid spawner set up for a match: five seconds,
/// in milliseconds.
pub const SPAWNER_PERIOD: u64 = 5_000;

/// The two top-level scenes of the game.
#[derive(Clone, Copy, Debug, PartialEq, Eq, Hash, Structural)]
pub enum GameStates {
    Menu,
    Match,
}

/// Installs the scene flow into a fresh world: the game starts at the
/// menu, and the initial setup requests the player spawn.
pub fn plugin(w: &mut World)
    requires
        old(w).wf(),
    ensures
        final(w).wf(),
        final(w).state == GameStates::Menu,
        final(w).entities@ == old(w).entities@,
        final(w).next_id == old(w).next_id,
        final(w).currency == old(w).currency,
        final(w).queue.items@ == old(w).queue.items@ + seq![Command::SpawnPlayer],
    {
    w.state = GameStates::Menu;
    game_setup(w);
    proof {
        assert(w.queue.items@ =~= old(w).queue.items@ + seq![Command::SpawnPlayer]);
    }
}

/// One-time world setup: requests the player spawn. (The camera that
/// accompanies the player is the rendering collaborator's concern.)
pub fn game_setup(w: &mut World)
    requires
        old(w).wf(),
    ensures
        final(w).wf(),
        final(w).state == old(w).state,
        final(w).entities@ == old(w).entities@,
        final(w).next_id == old(w).next_id,
        final(w).currency == old(w).currency,
        final(w).queue.items@ == old(w).queue.items@.push(Command::SpawnPlayer),
    {
    w.queue.enqueue(Command::SpawnPlayer);
}

/// Entering a match: spawns the periodic asteroid spawner.
pub fn match_setup(w: &mut World) -> (spawned: bool)
    requires
        old(w).wf(),
    ensures
        final(w).wf(),
        final(w).state == old(w).state,
        final(w).queue == old(w).queue,
        final(w).currency == old(w).currency,
        spawned == (old(w).next_id < u64::MAX),
        spawned ==> final(w).entities@.len() == old(w).entities@.len() + 1 && final(w).entities@.subrange(0, old(w).entities@.len() as int) == old(w).entities@ && final(w).next_id
            == old(w).next_id + 1 && final(w).entities@.last().alive && final(w).entities@.last().spawner == Option::Some(
            AsteroidSpawner { timer: Timer { period: SPAWNER_PERIOD, remaining: SPAWNER_PERIOD } },
        ),
        !spawned ==> final(w).entities@ == old(w).entities@ && final(w).next_id == old(w).next_id,
    {
    let mut e = Entity::bare();
    e.spawner = Option::Some(AsteroidSpawner { timer: Timer::new(SPAWNER_PERIOD) });
    let ghost w1 = *w;
    let spawned = w.spawn(e);
    proof {
        if spawned {
            assert(w.entities@.subrange(0, w1.entities@.len() as int) =~= w1.entities@);
        }
    }
    spawned
}

/// Moves the game to `state`; entering a match also performs the match
/// setup. Leaving a match tears nothing down here: match-scoped
/// entities are cleaned up by the scene collaborator.
pub fn set_state(w: &mut World, state: GameStates)
    requires
        old(w).wf(),
    ensures
        final(w).wf(),
        final(w).state == state,
        final(w).queue == old(w).queue,
        final(w).currency == old(w).currency,
        (state == GameStates::Match && old(w).state != GameStates::Match) ==> final(w).entities@.subrange(0, old(w).entities@.len() as int) == old(w).entities@ && (old(w).next_id
            < u64::MAX ==> final(w).entities@.len() == old(w).entities@.len() + 1 && final(w).next_id == old(w).next_id + 1 && final(w).entities@.last().alive && final(w).entities@.last().spawner == Option::Some(
            AsteroidSpawner { timer: Timer { period: SPAWNER_PERIOD, remaining: SPAWNER_PERIOD } },
        )) && (old(w).next_id == u64::MAX ==> final(w).entities@ == old(w).entities@ && final(w).next_id == old(w).next_id),
        !(state == GameStates::Match && old(w).state != GameStates::Match) ==> final(w).entities@
            == old(w).entities@ && final(w).next_id == old(w).next_id,
    {
    let entering = match (w.state, state) {
        (GameStates::Match, _) => false,
        (_, GameStates::Match) => true,
        _ => false,
    };
    w.state = state;
    if entering {
        match_setup(w);
        proof {
            if w.entities@.len() == old(w).entities@.len() {
                assert(w.entities@.subrange(0, old(w).entities@.len() as int) =~= w.entities@);
            }
        }
    }
}

/// The player's death ends the match: the game returns to the menu.
pub fn on_player_death(w: &mut World)
    requires
        old(w).wf(),
    ensures
        final(w).wf(),
        final(w).state == GameStates::Menu,
        final(w).entities@ == old(w).entities@,
        final(w).next_id == old(w).next_id,
        final(w).queue == old(w).queue,
        final(w).currency == old(w).currency,
    {
    w.state = GameStates::Menu;
}

} // verus!
