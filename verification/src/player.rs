//! The player: spawning, keyboard-driven movement, aiming, trigger
//! input and the touch-of-death check against deadly bodies.

use vstd::prelude::*;

use crate::common::OnCollisionEnter;
use crate::common::PickUpReceiver;
use crate::common::Timer;
use crate::common::DT_LIMIT;
use crate::geom::coord_in_range;
use crate::geom::dir_with_len;
use crate::geom::len2;
use crate::geom::scaled_x;
use crate::geom::scaled_y;
use crate::geom::Vec2;
use crate::geom::COORD_LIMIT;
use crate::scenes::GameStates;
use crate::shooter::Shooter;
use crate::world::claimed_of;
use crate::world::ent_wf;
use crate::world::lemma_wf_preserved;
use crate::world::Entity;
use crate::world::World;

verus! {

/// Delay between the player's shots, in milliseconds.
pub const PLAYER_SHOOT_DELAY: u64 = 400;

/// Period of the player's pickup claim phase, in milliseconds.
pub const PLAYER_CLAIM_PERIOD: u64 = 500;

/// Claim radius of the player's pickup receiver, in fixed-point units.
pub const PLAYER_CHASE_DISTANCE: i64 = 500_000;

/// Consumption radius of the player's pickup receiver.
pub const PLAYER_PICK_DISTANCE: i64 = 50_000;

/// Pull speed of the player's pickup receiver, units per second.
pub const PLAYER_PICK_SPEED: i64 = 300_000;

/// Collider radius of the player's body, in fixed-point units.
pub const PLAYER_RADIUS: i64 = 50_000;

/// Acceleration the movement keys apply, in fixed-point units per
/// second per second.
pub const PLAYER_ACCEL: i64 = 2_000_000;

/// Ceiling of the player's speed, in fixed-point units per second.
pub const PLAYER_MAX_SPEED: i64 = 1_250_000;

/// The player entity: an armed pickup receiver at rest at the origin,
/// with nothing claimed yet and no other component.
pub open spec fn is_player_entity(e: Entity) -> bool {
    &&& e.pos == (Vec2 { x: 0, y: 0 })
    &&& e.vel == (Vec2 { x: 0, y: 0 })
    &&& e.radius == PLAYER_RADIUS
    &&& e.shooter == Option::Some(
        Shooter { enabled: false, shoot_timer: 0, shoot_delay: PLAYER_SHOOT_DELAY },
    )
    &&& e.receiver matches Option::Some(r) && r == (PickUpReceiver {
        check_timer: Timer { period: PLAYER_CLAIM_PERIOD, remaining: PLAYER_CLAIM_PERIOD },
        chase_distance: PLAYER_CHASE_DISTANCE,
        pick_distance: PLAYER_PICK_DISTANCE,
        pick_speed: PLAYER_PICK_SPEED,
        entities_picked: r.entities_picked,
    }) && r.entities_picked@ == Seq::<u64>::empty()
    &&& e.player
    &&& e.asteroid is None
    &&& e.money_drop is None
    &&& e.money is None
    &&& e.pickup is None
    &&& e.lifetime is None
    &&& e.projectile is None
    &&& e.spawner is None
    &&& e.follow is None
    &&& !e.kill_player_on_touch
    &&& !e.destroy_on_death
}

/// Applies the deferred player spawn: the player starts at the origin,
/// at rest, with an idle shooter and an empty pickup receiver.
pub fn spawn_player(w: &mut World) -> (spawned: bool)
    requires
        old(w).wf(),
    ensures
        final(w).wf(),
        spawned == (old(w).next_id < u64::MAX),
        spawned ==> final(w).entities@.len() == old(w).entities@.len() + 1 && final(w).entities@.subrange(0, old(w).entities@.len() as int) == old(w).entities@
            && is_player_entity(final(w).entities@.last()) && final(w).entities@.last().id == old(w).next_id && final(w).entities@.last().alive && final(w).next_id == old(w).next_id + 1,
        !spawned ==> final(w).entities@ == old(w).entities@ && final(w).next_id == old(w).next_id,
        final(w).queue == old(w).queue,
        final(w).state == old(w).state,
        final(w).currency == old(w).currency,
{
    let mut e = Entity::bare();
    e.radius = PLAYER_RADIUS;
    e.shooter = Option::Some(Shooter::new(PLAYER_SHOOT_DELAY));
    e.receiver = Option::Some(
        PickUpReceiver {
            check_timer: Timer::new(PLAYER_CLAIM_PERIOD),
            chase_distance: PLAYER_CHASE_DISTANCE,
            pick_distance: PLAYER_PICK_DISTANCE,
            pick_speed: PLAYER_PICK_SPEED,
            entities_picked: Vec::new(),
        },
    );
    e.player = true;
    let ghost w1 = *w;
    let spawned = w.spawn(e);
    proof {
        if spawned {
            assert(w.entities@.subrange(0, w1.entities@.len() as int) =~= w1.entities@);
        }
    }
    spawned
}

/// `e` with its body motion state erased: what the movement and aim
/// systems leave untouched.
pub open spec fn non_motion_fields(e: Entity) -> Entity {
    Entity { vel: Vec2 { x: 0, y: 0 }, facing: Vec2 { x: 0, y: 0 }, shooter: Option::None, ..e }
}

/// The thrust a key pair contributes on one axis: plus one, minus one
/// or zero.
pub open spec fn key_axis(pos: bool, neg: bool) -> int {
    (if pos {
        1int
    } else {
        0int
    }) - (if neg {
        1int
    } else {
        0int
    })
}

/// A player's velocity after one movement tick: the held keys add
/// their acceleration over the frame, then the speed is clipped to the
/// ceiling by rescaling the velocity.
pub open spec fn thrust_vel(v: Vec2, fx: int, fy: int, dt: u64) -> Vec2 {
    let v2 = Vec2 { x: (v.x + fx * 2000 * dt) as i64, y: (v.y + fy * 2000 * dt) as i64 };
    if len2(v2) <= PLAYER_MAX_SPEED * PLAYER_MAX_SPEED {
        v2
    } else {
        Vec2 {
            x: scaled_x(v2, PLAYER_MAX_SPEED as int) as i64,
            y: scaled_y(v2, PLAYER_MAX_SPEED as int) as i64,
        }
    }
}

/// Keyboard-driven thrust: each held direction key adds acceleration
/// for the frame, and the player's speed is clipped to its ceiling by
/// rescaling the velocity.
pub fn player_movement(w: &mut World, up: bool, down: bool, right: bool, left: bool, dt: u64)
    requires
        old(w).wf(),
        dt <= DT_LIMIT,
    ensures
        final(w).wf(),
        final(w).entities@.len() == old(w).entities@.len(),
        final(w).next_id == old(w).next_id,
        final(w).queue == old(w).queue,
        final(w).state == old(w).state,
        final(w).currency == old(w).currency,
        forall|j: int|
            0 <= j < old(w).entities@.len() ==> non_motion_fields(#[trigger] final(w).entities@[j])
                == non_motion_fields(old(w).entities@[j]) && final(w).entities@[j].facing == old(w).entities@[j].facing && final(w).entities@[j].shooter == old(w).entities@[j].shooter,
        forall|j: int|
            0 <= j < old(w).entities@.len() && !((#[trigger] old(w).entities@[j]).alive && old(w).entities@[j].player) ==> final(w).entities@[j].vel == old(w).entities@[j].vel,
        forall|j: int|
            0 <= j < old(w).entities@.len() && (#[trigger] old(w).entities@[j]).alive && old(w).entities@[j].player ==> final(w).entities@[j].vel == thrust_vel(
                old(w).entities@[j].vel,
                key_axis(right, left),
                key_axis(up, down),
                dt,
            ),
{
    let ghost w0 = *w;
    let dv: i64 = 2000 * dt as i64;
    proof {
        assert(0 <= dv <= 120_000_000);
    }
    let fx: i64 = (if right {
        1i64
    } else {
        0i64
    }) - (if left {
        1i64
    } else {
        0i64
    });
    let fy: i64 = (if up {
        1i64
    } else {
        0i64
    }) - (if down {
        1i64
    } else {
        0i64
    });
    proof {
        assert(-120_000_000 <= fx * dv <= 120_000_000 && -120_000_000 <= fy * dv
            <= 120_000_000) by (nonlinear_arith)
            requires
                -1 <= fx <= 1,
                -1 <= fy <= 1,
                0 <= dv <= 120_000_000,
        ;
    }
    let n = w.entities.len();
    let mut i: usize = 0;
    while i < n
        invariant
            w0 == *old(w),
            w0.wf(),
            w.wf(),
            -120_000_000 <= fx * dv <= 120_000_000,
            -120_000_000 <= fy * dv <= 120_000_000,
            fx as int == key_axis(right, left),
            fy as int == key_axis(up, down),
            dv == 2000 * dt,
            n == w0.entities@.len(),
            i <= n,
            w.entities@.len() == n,
            w.next_id == w0.next_id,
            w.queue == w0.queue,
            w.state == w0.state,
            w.currency == w0.currency,
            forall|j: int|
                0 <= j < n ==> non_motion_fields(#[trigger] w.entities@[j]) == non_motion_fields(
                    w0.entities@[j],
                ) && w.entities@[j].facing == w0.entities@[j].facing && w.entities@[j].shooter
                    == w0.entities@[j].shooter,
            forall|j: int|
                0 <= j < n && !((#[trigger] w0.entities@[j]).alive && w0.entities@[j].player)
                    ==> w.entities@[j].vel == w0.entities@[j].vel,
            forall|j: int|
                0 <= j < i && (#[trigger] w0.entities@[j]).alive && w0.entities@[j].player
                    ==> w.entities@[j].vel == thrust_vel(
                    w0.entities@[j].vel,
                    key_axis(right, left),
                    key_axis(up, down),
                    dt,
                ),
            forall|j: int|
                i <= j < n ==> (#[trigger] w.entities@[j]).vel == w0.entities@[j].vel,
        decreases n - i,
    {
        let is_player = w.entities[i].alive && w.entities[i].player;
        if is_player {
            proof {
                assert(ent_wf(w.entities@[i as int]));
            }
            let v = w.entities[i].vel;
            let v2 = Vec2 { x: v.x + fx * dv, y: v.y + fy * dv };
            proof {
                assert(fx as int == key_axis(right, left));
                assert(fy as int == key_axis(up, down));
                assert(fx * dv == fx * 2000 * dt && fy * dv == fy * 2000 * dt)
                    by (nonlinear_arith)
                    requires
                        dv == 2000 * dt,
                ;
                crate::geom::lemma_square_bound(v2.x as int, COORD_LIMIT as int);
                crate::geom::lemma_square_bound(v2.y as int, COORD_LIMIT as int);
                crate::geom::lemma_square_bound(PLAYER_MAX_SPEED as int, PLAYER_MAX_SPEED as int);
            }
            let l2: i128 = v2.x as i128 * v2.x as i128 + v2.y as i128 * v2.y as i128;
            let clipped = if l2 > PLAYER_MAX_SPEED as i128 * PLAYER_MAX_SPEED as i128 {
                dir_with_len(v2, PLAYER_MAX_SPEED)
            } else {
                proof {
                    assert(v2.x * v2.x <= len2(v2));
                    assert(v2.y * v2.y <= len2(v2));
                    assert(-PLAYER_MAX_SPEED <= v2.x <= PLAYER_MAX_SPEED) by (nonlinear_arith)
                        requires
                            v2.x * v2.x <= PLAYER_MAX_SPEED * PLAYER_MAX_SPEED,
                            PLAYER_MAX_SPEED > 0,
                    ;
                    assert(-PLAYER_MAX_SPEED <= v2.y <= PLAYER_MAX_SPEED) by (nonlinear_arith)
                        requires
                            v2.y * v2.y <= PLAYER_MAX_SPEED * PLAYER_MAX_SPEED,
                            PLAYER_MAX_SPEED > 0,
                    ;
                }
                v2
            };
            let ghost w_m = *w;
            w.entities[i].vel = clipped;
            proof {
                assert forall|j2: int| 0 <= j2 < n implies {
                    let e2 = #[trigger] w.entities@[j2];
                    let e1 = w_m.entities@[j2];
                    e2.id == e1.id && ent_wf(e2) && claimed_of(e2) == claimed_of(e1) && (e2.alive
                        && e2.pickup is Some ==> e1.alive && e2.pickup == e1.pickup)
                } by {
                    if j2 != i as int {
                        assert(w.entities@[j2] == w_m.entities@[j2]);
                    }
                }
                lemma_wf_preserved(w_m, *w);
                assert(non_motion_fields(w.entities@[i as int]) == non_motion_fields(
                    w_m.entities@[i as int],
                ));
            }
        }
        i = i + 1;
    }
}

/// Aiming: points every living player at the cursor's world position.
/// A cursor exactly on the player leaves the facing unchanged (the
/// direction is undefined there).
pub fn player_look_at_mouse(w: &mut World, cursor: Vec2)
    requires
        old(w).wf(),
        coord_in_range(cursor),
    ensures
        final(w).wf(),
        final(w).entities@.len() == old(w).entities@.len(),
        final(w).next_id == old(w).next_id,
        final(w).queue == old(w).queue,
        final(w).state == old(w).state,
        final(w).currency == old(w).currency,
        forall|j: int|
            0 <= j < old(w).entities@.len() ==> non_motion_fields(#[trigger] final(w).entities@[j])
                == non_motion_fields(old(w).entities@[j]) && final(w).entities@[j].vel == old(w).entities@[j].vel && final(w).entities@[j].shooter == old(w).entities@[j].shooter,
        forall|j: int|
            0 <= j < old(w).entities@.len() && (#[trigger] old(w).entities@[j]).alive && old(w).entities@[j].player ==> {
                let e = old(w).entities@[j];
                let d = (Vec2 { x: (cursor.x - e.pos.x) as i64, y: (cursor.y - e.pos.y) as i64 });
                final(w).entities@[j].facing == (if d.x == 0 && d.y == 0 {
                    e.facing
                } else {
                    Vec2 { x: scaled_x(d, 1000) as i64, y: scaled_y(d, 1000) as i64 }
                })
            },
        forall|j: int|
            0 <= j < old(w).entities@.len() && !((#[trigger] old(w).entities@[j]).alive && old(w).entities@[j].player) ==> final(w).entities@[j].facing == old(w).entities@[j].facing,
{
    let ghost w0 = *w;
    let n = w.entities.len();
    let mut i: usize = 0;
    while i < n
        invariant
            w0 == *old(w),
            w0.wf(),
            w.wf(),
            coord_in_range(cursor),
            n == w0.entities@.len(),
            i <= n,
            w.entities@.len() == n,
            w.next_id == w0.next_id,
            w.queue == w0.queue,
            w.state == w0.state,
            w.currency == w0.currency,
            forall|j: int|
                0 <= j < n ==> non_motion_fields(#[trigger] w.entities@[j]) == non_motion_fields(
                    w0.entities@[j],
                ) && w.entities@[j].vel == w0.entities@[j].vel && w.entities@[j].shooter
                    == w0.entities@[j].shooter,
            forall|j: int|
                0 <= j < i && (#[trigger] w0.entities@[j]).alive && w0.entities@[j].player ==> {
                    let e = w0.entities@[j];
                    let d = (Vec2 {
                        x: (cursor.x - e.pos.x) as i64,
                        y: (cursor.y - e.pos.y) as i64,
                    });
                    w.entities@[j].facing == (if d.x == 0 && d.y == 0 {
                        e.facing
                    } else {
                        Vec2 { x: scaled_x(d, 1000) as i64, y: scaled_y(d, 1000) as i64 }
                    })
                },
            forall|j: int|
                0 <= j < n && !(0 <= j < i && (#[trigger] w0.entities@[j]).alive
                    && w0.entities@[j].player) ==> w.entities@[j].facing
                    == w0.entities@[j].facing,
        decreases n - i,
    {
        let is_player = w.entities[i].alive && w.entities[i].player;
        if is_player {
            proof {
                assert(ent_wf(w.entities@[i as int]));
            }
            let pos = w.entities[i].pos;
            let d = Vec2 { x: cursor.x - pos.x, y: cursor.y - pos.y };
            if !(d.x == 0 && d.y == 0) {
                let f = dir_with_len(d, 1000);
                let ghost w_m = *w;
                w.entities[i].facing = f;
                proof {
                    assert forall|j2: int| 0 <= j2 < n implies {
                        let e2 = #[trigger] w.entities@[j2];
                        let e1 = w_m.entities@[j2];
                        e2.id == e1.id && ent_wf(e2) && claimed_of(e2) == claimed_of(e1) && (
                        e2.alive && e2.pickup is Some ==> e1.alive && e2.pickup == e1.pickup)
                    } by {
                        if j2 != i as int {
                            assert(w.entities@[j2] == w_m.entities@[j2]);
                        }
                    }
                    lemma_wf_preserved(w_m, *w);
                    assert(non_motion_fields(w.entities@[i as int]) == non_motion_fields(
                        w_m.entities@[i as int],
                    ));
                }
            }
        }
        i = i + 1;
    }
}

/// Trigger input: every living player's shooter is enabled exactly
/// while the fire button is held.
pub fn player_input_shooting(w: &mut World, pressed: bool)
    requires
        old(w).wf(),
    ensures
        final(w).wf(),
        final(w).entities@.len() == old(w).entities@.len(),
        final(w).next_id == old(w).next_id,
        final(w).queue == old(w).queue,
        final(w).state == old(w).state,
        final(w).currency == old(w).currency,
        forall|j: int|
            0 <= j < old(w).entities@.len() ==> non_motion_fields(#[trigger] final(w).entities@[j])
                == non_motion_fields(old(w).entities@[j]) && final(w).entities@[j].vel == old(w).entities@[j].vel && final(w).entities@[j].facing == old(w).entities@[j].facing,
        forall|j: int|
            0 <= j < old(w).entities@.len() && (#[trigger] old(w).entities@[j]).alive && old(w).entities@[j].player && old(w).entities@[j].shooter is Some ==> final(w).entities@[j].shooter
                == Option::Some(
                Shooter { enabled: pressed, ..old(w).entities@[j].shooter.unwrap() },
            ),
        forall|j: int|
            0 <= j < old(w).entities@.len() && !((#[trigger] old(w).entities@[j]).alive && old(w).entities@[j].player && old(w).entities@[j].shooter is Some) ==> final(w).entities@[j].shooter
                == old(w).entities@[j].shooter,
{
    let ghost w0 = *w;
    let n = w.entities.len();
    let mut i: usize = 0;
    while i < n
        invariant
            w0 == *old(w),
            w0.wf(),
            w.wf(),
            n == w0.entities@.len(),
            i <= n,
            w.entities@.len() == n,
            w.next_id == w0.next_id,
            w.queue == w0.queue,
            w.state == w0.state,
            w.currency == w0.currency,
            forall|j: int|
                0 <= j < n ==> non_motion_fields(#[trigger] w.entities@[j]) == non_motion_fields(
                    w0.entities@[j],
                ) && w.entities@[j].vel == w0.entities@[j].vel && w.entities@[j].facing
                    == w0.entities@[j].facing,
            forall|j: int|
                0 <= j < i && (#[trigger] w0.entities@[j]).alive && w0.entities@[j].player
                    && w0.entities@[j].shooter is Some ==> w.entities@[j].shooter == Option::Some(
                    Shooter { enabled: pressed, ..w0.entities@[j].shooter.unwrap() },
                ),
            forall|j: int|
                0 <= j < n && !(0 <= j < i && (#[trigger] w0.entities@[j]).alive
                    && w0.entities@[j].player && w0.entities@[j].shooter is Some)
                    ==> w.entities@[j].shooter == w0.entities@[j].shooter,
        decreases n - i,
    {
        let is_player = w.entities[i].alive && w.entities[i].player;
        let sh_opt = w.entities[i].shooter;
        match sh_opt {
            Option::Some(sh) => {
                if is_player {
                    let ghost w_m = *w;
                    w.entities[i].shooter = Option::Some(
                        Shooter {
                            enabled: pressed,
                            shoot_timer: sh.shoot_timer,
                            shoot_delay: sh.shoot_delay,
                        },
                    );
                    proof {
                        assert forall|j2: int| 0 <= j2 < n implies {
                            let e2 = #[trigger] w.entities@[j2];
                            let e1 = w_m.entities@[j2];
                            e2.id == e1.id && ent_wf(e2) && claimed_of(e2) == claimed_of(e1) && (
                            e2.alive && e2.pickup is Some ==> e1.alive && e2.pickup == e1.pickup)
                        } by {
                            if j2 != i as int {
                                assert(w.entities@[j2] == w_m.entities@[j2]);
                            }
                        }
                        lemma_wf_preserved(w_m, *w);
                        assert(non_motion_fields(w.entities@[i as int]) == non_motion_fields(
                            w_m.entities@[i as int],
                        ));
                    }
                }
            },
            Option::None => {},
        }
        i = i + 1;
    }
}

/// Whether a contact pair joins a living player with a living
/// touch-of-death entity.
pub open spec fn deadly_contact(w: World, ev: OnCollisionEnter) -> bool {
    exists|a: int, b: int|
        0 <= a < w.entities@.len() && 0 <= b < w.entities@.len() && (#[trigger] w.entities@[a]).alive && (#[trigger] w.entities@[b]).alive && w.entities@[a].player
            && w.entities@[b].kill_player_on_touch && ((w.entities@[a].id == ev.first
            && w.entities@[b].id == ev.second) || (w.entities@[a].id == ev.second
            && w.entities@[b].id == ev.first))
}

/// The touch of death: if any reported contact joins the player with
/// a deadly body, the player dies and the game returns to the menu.
pub fn player_death_touch(w: &mut World, contacts: &Vec<OnCollisionEnter>) -> (died: bool)
    requires
        old(w).wf(),
    ensures
        final(w).wf(),
        final(w).entities@ == old(w).entities@,
        final(w).next_id == old(w).next_id,
        final(w).queue == old(w).queue,
        final(w).currency == old(w).currency,
        died == exists|k: int|
            0 <= k < contacts@.len() && deadly_contact(*old(w), #[trigger] contacts@[k]),
        final(w).state == (if died {
            GameStates::Menu
        } else {
            old(w).state
        }),
{
    let ghost w0 = *w;
    let n = contacts.len();
    let mut died = false;
    let mut k: usize = 0;
    while k < n
        invariant
            w0 == *old(w),
            w0.wf(),
            w.wf(),
            *w == w0,
            n == contacts@.len(),
            k <= n,
            died == exists|k2: int|
                0 <= k2 < k && deadly_contact(w0, #[trigger] contacts@[k2]),
        decreases n - k,
    {
        let ev = contacts[k];
        let a = w.find_alive(ev.first);
        let b = w.find_alive(ev.second);
        let hit_here = match (a, b) {
            (Option::Some(ia), Option::Some(ib)) => {
                let fwd = w.entities[ia].player && w.entities[ib].kill_player_on_touch;
                let bwd = w.entities[ib].player && w.entities[ia].kill_player_on_touch;
                fwd || bwd
            },
            _ => false,
        };
        proof {
            if hit_here {
                assert(deadly_contact(w0, contacts@[k as int]));
            } else {
                if deadly_contact(w0, contacts@[k as int]) {
                    let (ea, eb) = choose|a2: int, b2: int|
                        0 <= a2 < w0.entities@.len() && 0 <= b2 < w0.entities@.len() && (
                        #[trigger] w0.entities@[a2]).alive && (#[trigger] w0.entities@[b2]).alive
                            && w0.entities@[a2].player && w0.entities@[b2].kill_player_on_touch && (
                        (w0.entities@[a2].id == contacts@[k as int].first && w0.entities@[b2].id
                            == contacts@[k as int].second) || (w0.entities@[a2].id
                            == contacts@[k as int].second && w0.entities@[b2].id
                            == contacts@[k as int].first));
                    match (a, b) {
                        (Option::Some(ia), Option::Some(ib)) => {
                            if w0.entities@[ea].id == contacts@[k as int].first {
                                crate::world::lemma_unique_id(w0, ea, ia as int);
                                crate::world::lemma_unique_id(w0, eb, ib as int);
                            } else {
                                crate::world::lemma_unique_id(w0, ea, ib as int);
                                crate::world::lemma_unique_id(w0, eb, ia as int);
                            }
                            assert(false);
                        },
                        (Option::None, _) => {
                            if w0.entities@[ea].id == contacts@[k as int].first {
                                assert(!(w0.entities@[ea].id == contacts@[k as int].first
                                    && w0.entities@[ea].alive));
                            } else {
                                assert(!(w0.entities@[eb].id == contacts@[k as int].first
                                    && w0.entities@[eb].alive));
                            }
                            assert(false);
                        },
                        (_, Option::None) => {
                            if w0.entities@[ea].id == contacts@[k as int].second {
                                assert(!(w0.entities@[ea].id == contacts@[k as int].second
                                    && w0.entities@[ea].alive));
                            } else {
                                assert(!(w0.entities@[eb].id == contacts@[k as int].second
                                    && w0.entities@[eb].alive));
                            }
                            assert(false);
                        },
                    }
                }
            }
        }
        if hit_here {
            died = true;
        }
        k = k + 1;
    }
    if died {
        crate::scenes::on_player_death(w);
    }
    died
}

} // verus!
