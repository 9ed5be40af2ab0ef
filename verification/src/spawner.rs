//! The periodic asteroid spawner that keeps a match populated.

use vstd::prelude::*;

use crate::asteroids::SpawnAsteroid;
use crate::common::timer_after;
use crate::common::timer_fires;
use crate::common::Timer;
use crate::common::DT_LIMIT;
use crate::geom::dir_with_len;
use crate::geom::scale_milli;
use crate::geom::Vec2;
use crate::rng::RngSampler;
use crate::world::claimed_of;
use crate::world::ent_wf;
use crate::world::lemma_wf_preserved;
use crate::world::Command;
use crate::world::Entity;
use crate::world::World;

verus! {

/// Fragmentation tier of a freshly spawned asteroid.
pub const SPAWN_DEPTH: u32 = 2;

/// Largest window width the spawner accepts, in fixed-point units:
/// spawn positions stay within twice this of the player.
pub const WINDOW_LIMIT: i64 = 500_000_000_000;

/// Spawns a fresh asteroid near the player whenever its timer fires.
#[derive(Clone, Copy, Debug, PartialEq, Eq, Structural)]
pub struct AsteroidSpawner {
    pub timer: Timer,
}

/// `e` with its spawner state erased: what the spawn system leaves
/// untouched.
pub open spec fn non_spawner_fields(e: Entity) -> Entity {
    Entity { spawner: Option::None, ..e }
}

/// Whether a living player stands at `pp`.
pub open spec fn live_player_at(ents: Seq<Entity>, pp: Vec2) -> bool {
    exists|j: int|
        0 <= j < ents.len() && (#[trigger] ents[j]).alive && ents[j].player && ents[j].pos == pp
}

/// Whether some living player stands in `ents`.
pub open spec fn has_live_player(ents: Seq<Entity>) -> bool {
    exists|j: int| 0 <= j < ents.len() && (#[trigger] ents[j]).alive && ents[j].player
}

/// How many spawn requests one spawner pass queues when a player is
/// present: one per living spawner whose timer completes this tick.
pub open spec fn fired_count(ents: Seq<Entity>, dt: u64) -> int
    decreases ents.len(),
{
    if ents.len() == 0 {
        0
    } else {
        fired_count(ents.drop_last(), dt) + (if ents.last().alive && ents.last().spawner is Some
            && timer_fires(ents.last().spawner.unwrap().timer, dt) {
            1int
        } else {
            0int
        })
    }
}

/// A queued spawn is aimed: it sits within twice the window width of a
/// living player on each axis, and its velocity is the direction back
/// toward that player rescaled to a speed within the configured range.
pub open spec fn aimed_spawn(c: SpawnAsteroid, ents: Seq<Entity>, window_width: i64) -> bool {
    exists|pp: Vec2, f: int|
        live_player_at(ents, pp) && 100_000 <= f <= 350_000 && -2 * window_width <= c.position.x
            - pp.x <= 2 * window_width && -2 * window_width <= c.position.y - pp.y <= 2
            * window_width && c.velocity.x == #[trigger] crate::geom::scaled_x(
            (Vec2 { x: (pp.x - c.position.x) as i64, y: (pp.y - c.position.y) as i64 }),
            f,
        ) as i64 && c.velocity.y == crate::geom::scaled_y(
            (Vec2 { x: (pp.x - c.position.x) as i64, y: (pp.y - c.position.y) as i64 }),
            f,
        ) as i64
}

/// The periodic spawner system: every living spawner advances its
/// timer by the frame delta; on completion, if a player is present, a
/// tier-two asteroid spawn is requested at a random direction twice
/// the window width from the player, moving toward the player at a
/// random speed between one and three and a half hundred units per
/// second. Without a player nothing is requested.
pub fn run_asteroid_spawner<R: RngSampler>(w: &mut World, dt: u64, window_width: i64, rng: &mut R)
    requires
        old(w).wf(),
        dt <= DT_LIMIT,
        0 <= window_width <= WINDOW_LIMIT,
    ensures
        final(w).wf(),
        final(w).entities@.len() == old(w).entities@.len(),
        final(w).next_id == old(w).next_id,
        final(w).state == old(w).state,
        final(w).currency == old(w).currency,
        forall|j: int|
            0 <= j < old(w).entities@.len() ==> non_spawner_fields(#[trigger] final(w).entities@[j])
                == non_spawner_fields(old(w).entities@[j]),
        forall|j: int|
            0 <= j < old(w).entities@.len() && (#[trigger] old(w).entities@[j]).alive && old(w).entities@[j].spawner is Some ==> final(w).entities@[j].spawner == Option::Some(
                AsteroidSpawner {
                    timer: timer_after(old(w).entities@[j].spawner.unwrap().timer, dt),
                },
            ),
        final(w).queue.items@.len() >= old(w).queue.items@.len(),
        final(w).queue.items@.take(old(w).queue.items@.len() as int) == old(w).queue.items@,
        has_live_player(old(w).entities@) ==> final(w).queue.items@.len() == old(w).queue.items@.len() + fired_count(old(w).entities@, dt),
        !has_live_player(old(w).entities@) ==> final(w).queue.items@ == old(w).queue.items@,
        forall|q: int|
            old(w).queue.items@.len() <= q < final(w).queue.items@.len() ==> ((
            #[trigger] final(w).queue.items@[q]) matches Command::SpawnAsteroid(c) && c.depth
                == SPAWN_DEPTH && aimed_spawn(c, old(w).entities@, window_width)),
{
    let ghost w0 = *w;
    let player = w.find_player();
    let n = w.entities.len();
    let mut i: usize = 0;
    while i < n
        invariant
            w0 == *old(w),
            w0.wf(),
            w.wf(),
            dt <= DT_LIMIT,
            0 <= window_width <= WINDOW_LIMIT,
            n == w0.entities@.len(),
            i <= n,
            w.entities@.len() == n,
            w.next_id == w0.next_id,
            w.state == w0.state,
            w.currency == w0.currency,
            match player {
                Option::Some(pp) => crate::geom::coord_in_range(pp),
                Option::None => true,
            },
            forall|j: int|
                0 <= j < n ==> non_spawner_fields(#[trigger] w.entities@[j])
                    == non_spawner_fields(w0.entities@[j]),
            forall|j: int|
                0 <= j < i && (#[trigger] w0.entities@[j]).alive && w0.entities@[j].spawner is Some
                    ==> w.entities@[j].spawner == Option::Some(
                    AsteroidSpawner { timer: timer_after(w0.entities@[j].spawner.unwrap().timer, dt) },
                ),
            forall|j: int|
                i <= j < n ==> (#[trigger] w.entities@[j]).spawner == w0.entities@[j].spawner,
            w.queue.items@.len() >= w0.queue.items@.len(),
            w.queue.items@.take(w0.queue.items@.len() as int) == w0.queue.items@,
            match player {
                Option::Some(pp) => live_player_at(w0.entities@, pp) && w.queue.items@.len()
                    == w0.queue.items@.len() + fired_count(w0.entities@.take(i as int), dt),
                Option::None => !has_live_player(w0.entities@) && w.queue.items@
                    == w0.queue.items@,
            },
            forall|q: int|
                w0.queue.items@.len() <= q < w.queue.items@.len() ==> ((
                #[trigger] w.queue.items@[q]) matches Command::SpawnAsteroid(c) && c.depth
                    == SPAWN_DEPTH && aimed_spawn(c, w0.entities@, window_width)),
        decreases n - i,
    {
        let ghost ti = w0.entities@.take(i as int);
        let ghost ti1 = w0.entities@.take(i as int + 1);
        proof {
            assert(ti1.drop_last() =~= ti);
            assert(ti1.last() == w0.entities@[i as int]);
        }
        let alive_i = w.entities[i].alive;
        let sp_opt = w.entities[i].spawner;
        match sp_opt {
            Option::Some(sp) => {
                if alive_i {
                    proof {
                        assert(ent_wf(w.entities@[i as int]));
                    }
                    let mut timer = sp.timer;
                    let fired = timer.tick(dt);
                    let ghost w_m = *w;
                    w.entities[i].spawner = Option::Some(AsteroidSpawner { timer });
                    proof {
                        assert forall|j2: int| 0 <= j2 < n implies {
                            let e2 = #[trigger] w.entities@[j2];
                            let e1 = w_m.entities@[j2];
                            e2.id == e1.id && ent_wf(e2) && claimed_of(e2) == claimed_of(e1) && (
                            e2.alive && e2.pickup is Some ==> e1.alive && e2.pickup == e1.pickup)
                        } by {
                            if j2 != i as int {
                                assert(w.entities@[j2] == w_m.entities@[j2]);
                            }
                        }
                        lemma_wf_preserved(w_m, *w);
                        assert(non_spawner_fields(w.entities@[i as int]) == non_spawner_fields(
                            w_m.entities@[i as int],
                        ));
                    }
                    if fired {
                        match player {
                            Option::Some(ppos) => {
                                let dir = rng.circle();
                                let reach = 2 * window_width;
                                let offset = scale_milli(dir, reach);
                                let spawn_pos = Vec2 {
                                    x: ppos.x + offset.x,
                                    y: ppos.y + offset.y,
                                };
                                let delta = Vec2 {
                                    x: ppos.x - spawn_pos.x,
                                    y: ppos.y - spawn_pos.y,
                                };
                                let speed = rng.value_range(100_000, 350_000);
                                let vel = dir_with_len(delta, speed);
                                w.queue.enqueue(
                                    Command::SpawnAsteroid(
                                        SpawnAsteroid {
                                            position: spawn_pos,
                                            velocity: vel,
                                            depth: SPAWN_DEPTH,
                                        },
                                    ),
                                );
                                proof {
                                    assert(w.queue.items@.take(w0.queue.items@.len() as int)
                                        =~= w0.queue.items@);
                                    let c = SpawnAsteroid {
                                        position: spawn_pos,
                                        velocity: vel,
                                        depth: SPAWN_DEPTH,
                                    };
                                    assert(c.position.x - ppos.x == offset.x as int
                                        && c.position.y - ppos.y == offset.y as int);
                                    assert(delta == (Vec2 {
                                        x: (ppos.x - c.position.x) as i64,
                                        y: (ppos.y - c.position.y) as i64,
                                    }));
                                    assert(live_player_at(w0.entities@, ppos) && 100_000
                                        <= speed as int <= 350_000 && -2 * window_width
                                        <= c.position.x - ppos.x <= 2 * window_width && -2
                                        * window_width <= c.position.y - ppos.y <= 2
                                        * window_width && c.velocity.x
                                        == crate::geom::scaled_x(delta, speed as int) as i64
                                        && c.velocity.y == crate::geom::scaled_y(
                                        delta,
                                        speed as int,
                                    ) as i64);
                                    assert(aimed_spawn(c, w0.entities@, window_width));
                                }
                            },
                            Option::None => {},
                        }
                    }
                }
            },
            Option::None => {},
        }
        i = i + 1;
    }
    proof {
        assert(w0.entities@.take(n as int) =~= w0.entities@);
    }
}

} // verus!