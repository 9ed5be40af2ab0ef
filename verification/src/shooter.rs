//! The firing component: accumulates elapsed time and fires one
//! projectile for every full delay that passed while enabled.

use vstd::prelude::*;

use crate::common::DT_LIMIT;
use crate::common::PERIOD_LIMIT;
use crate::geom::scale_milli;
use crate::geom::Vec2;
use crate::projectiles::ProjectileBundle;
use crate::projectiles::PROJECTILE_DAMAGE;
use crate::projectiles::PROJECTILE_LIFETIME;
use crate::world::claimed_of;
use crate::world::ent_wf;
use crate::world::lemma_wf_preserved;
use crate::world::Command;
use crate::world::Entity;
use crate::world::World;

verus! {

/// Automatic fire state of an armed entity.
#[derive(Clone, Copy, Debug, PartialEq, Eq, Structural)]
pub struct Shooter {
    /// Whether the trigger is held this tick.
    pub enabled: bool,
    /// Time accumulated toward the next shot, in milliseconds.
    pub shoot_timer: u64,
    /// Delay between shots, in milliseconds.
    pub shoot_delay: u64,
}

impl Shooter {
    /// A shooter is well formed when its delay is positive and bounded
    /// and the accumulator holds less than one full delay.
    pub open spec fn wf(self) -> bool {
        0 < self.shoot_delay <= PERIOD_LIMIT && self.shoot_timer < self.shoot_delay
    }

    pub fn new(shoot_delay: u64) -> (r: Shooter)
        requires
            0 < shoot_delay <= PERIOD_LIMIT,
        ensures
            r.wf(),
            r.shoot_delay == shoot_delay,
            r.shoot_timer == 0,
            !r.enabled,
    {
        Shooter { enabled: false, shoot_timer: 0, shoot_delay }
    }
}

/// Collider radius of a fired projectile: ten units.
pub const SHOT_RADIUS: i64 = 10_000;

/// Muzzle speed of a fired projectile: two thousand units per second.
pub const SHOT_SPEED: i64 = 2_000_000;

/// Distance from the shooter at which a projectile appears:
/// seventy-five units along the facing.
pub const SHOT_OFFSET: i64 = 75_000;

/// `e` with its firing state erased: what the fire system leaves
/// untouched.
pub open spec fn non_shooter_fields(e: Entity) -> Entity {
    Entity { shooter: Option::None, ..e }
}

/// The one projectile spawn an armed entity requests: an ordinary
/// projectile fired along the facing, from just ahead of the entity.
pub open spec fn shot_of(e: Entity) -> Command {
    Command::SpawnProjectile(
        ProjectileBundle {
            projectile: crate::projectiles::Projectile { damage: PROJECTILE_DAMAGE },
            lifetime: crate::common::Lifetime { remaining: PROJECTILE_LIFETIME },
            radius: SHOT_RADIUS,
            position: Vec2 {
                x: (e.pos.x + crate::geom::milli_scaled(e.facing.x as int, SHOT_OFFSET as int)) as i64,
                y: (e.pos.y + crate::geom::milli_scaled(e.facing.y as int, SHOT_OFFSET as int)) as i64,
            },
            velocity: Vec2 {
                x: crate::geom::milli_scaled(e.facing.x as int, SHOT_SPEED as int) as i64,
                y: crate::geom::milli_scaled(e.facing.y as int, SHOT_SPEED as int) as i64,
            },
        },
    )
}

/// How many shots a shooter fires over a frame delta: one per full
/// delay the accumulator reaches; a disabled shooter fires none.
pub open spec fn shots_count(s: Shooter, dt: u64) -> int {
    if s.enabled {
        (s.shoot_timer + dt) / (s.shoot_delay as int)
    } else {
        0
    }
}

/// `n` copies of one command.
pub open spec fn repeat_cmd(c: Command, n: int) -> Seq<Command>
    decreases n,
{
    if n <= 0 {
        Seq::empty()
    } else {
        repeat_cmd(c, n - 1).push(c)
    }
}

/// Everything one fire pass queues: for each living armed entity in
/// store order, its shot, repeated once per elapsed delay.
pub open spec fn fire_cmds(ents: Seq<Entity>, dt: u64) -> Seq<Command>
    decreases ents.len(),
{
    if ents.len() == 0 {
        Seq::empty()
    } else {
        fire_cmds(ents.drop_last(), dt) + (if ents.last().alive && ents.last().shooter is Some {
            repeat_cmd(shot_of(ents.last()), shots_count(ents.last().shooter.unwrap(), dt))
        } else {
            Seq::empty()
        })
    }
}

/// The fire system: every armed entity whose trigger is held
/// accumulates the frame delta and requests one projectile spawn per
/// full delay that has passed, fired along its facing from just ahead
/// of it. The accumulator always keeps less than one full delay.
pub fn shooter_fire(w: &mut World, dt: u64)
    requires
        old(w).wf(),
        dt <= DT_LIMIT,
    ensures
        final(w).wf(),
        final(w).entities@.len() == old(w).entities@.len(),
        final(w).next_id == old(w).next_id,
        final(w).state == old(w).state,
        final(w).currency == old(w).currency,
        forall|j: int|
            0 <= j < old(w).entities@.len() ==> non_shooter_fields(#[trigger] final(w).entities@[j])
                == non_shooter_fields(old(w).entities@[j]),
        forall|j: int|
            0 <= j < old(w).entities@.len() && (#[trigger] old(w).entities@[j]).alive && old(w).entities@[j].shooter is Some ==> final(w).entities@[j].shooter == Option::Some(
                (if old(w).entities@[j].shooter.unwrap().enabled {
                    Shooter {
                        enabled: true,
                        shoot_timer: ((old(w).entities@[j].shooter.unwrap().shoot_timer + dt) % (
                        old(w).entities@[j].shooter.unwrap().shoot_delay as int)) as u64,
                        shoot_delay: old(w).entities@[j].shooter.unwrap().shoot_delay,
                    }
                } else {
                    old(w).entities@[j].shooter.unwrap()
                }),
            ),
        forall|j: int|
            0 <= j < old(w).entities@.len() && !((#[trigger] old(w).entities@[j]).alive && old(w).entities@[j].shooter is Some) ==> final(w).entities@[j].shooter == old(w).entities@[j].shooter,
        final(w).queue.items@ == old(w).queue.items@ + fire_cmds(old(w).entities@, dt),
{
    let ghost w0 = *w;
    let n = w.entities.len();
    let mut i: usize = 0;
    while i < n
        invariant
            w0 == *old(w),
            w0.wf(),
            w.wf(),
            dt <= DT_LIMIT,
            n == w0.entities@.len(),
            i <= n,
            w.entities@.len() == n,
            w.next_id == w0.next_id,
            w.state == w0.state,
            w.currency == w0.currency,
            forall|j: int|
                0 <= j < n ==> non_shooter_fields(#[trigger] w.entities@[j])
                    == non_shooter_fields(w0.entities@[j]),
            forall|j: int|
                0 <= j < i && (#[trigger] w0.entities@[j]).alive && w0.entities@[j].shooter is Some
                    ==> w.entities@[j].shooter == Option::Some(
                    (if w0.entities@[j].shooter.unwrap().enabled {
                        Shooter {
                            enabled: true,
                            shoot_timer: ((w0.entities@[j].shooter.unwrap().shoot_timer + dt) % (
                            w0.entities@[j].shooter.unwrap().shoot_delay as int)) as u64,
                            shoot_delay: w0.entities@[j].shooter.unwrap().shoot_delay,
                        }
                    } else {
                        w0.entities@[j].shooter.unwrap()
                    }),
                ),
            forall|j: int|
                0 <= j < n && !(0 <= j < i && (#[trigger] w0.entities@[j]).alive
                    && w0.entities@[j].shooter is Some) ==> w.entities@[j].shooter
                    == w0.entities@[j].shooter,
            w.queue.items@ == w0.queue.items@ + fire_cmds(w0.entities@.take(i as int), dt),
        decreases n - i,
    {
        let ghost ti = w0.entities@.take(i as int);
        let ghost ti1 = w0.entities@.take(i as int + 1);
        proof {
            assert(ti1.drop_last() =~= ti);
            assert(ti1.last() == w0.entities@[i as int]);
        }
        let alive_i = w.entities[i].alive;
        let sh_opt = w.entities[i].shooter;
        match sh_opt {
            Option::Some(sh) => {
                proof {
                    assert(sh == w0.entities@[i as int].shooter.unwrap());
                }
                if alive_i && sh.enabled {
                    proof {
                        assert(ent_wf(w.entities@[i as int]));
                    }
                    let pos = w.entities[i].pos;
                    let facing = w.entities[i].facing;
                    let vel = scale_milli(facing, SHOT_SPEED);
                    let off = scale_milli(facing, SHOT_OFFSET);
                    let spawn_pos = Vec2 { x: pos.x + off.x, y: pos.y + off.y };
                    let ghost shot = shot_of(w0.entities@[i as int]);
                    proof {
                        assert(pos == w0.entities@[i as int].pos);
                        assert(facing == w0.entities@[i as int].facing);
                        assert(shot == Command::SpawnProjectile(
                            ProjectileBundle {
                                projectile: crate::projectiles::Projectile {
                                    damage: PROJECTILE_DAMAGE,
                                },
                                lifetime: crate::common::Lifetime {
                                    remaining: PROJECTILE_LIFETIME,
                                },
                                radius: SHOT_RADIUS,
                                position: spawn_pos,
                                velocity: vel,
                            },
                        ));
                    }
                    let ghost ents_before = w.entities@;
                    let ghost q_pre = w.queue.items@;
                    let ghost mut c: int = 0;
                    let mut t: u64 = sh.shoot_timer + dt;
                    while t >= sh.shoot_delay
                        invariant
                            0 < sh.shoot_delay <= PERIOD_LIMIT,
                            crate::geom::speed_in_range(vel),
                            w.wf(),
                            n == w.entities@.len(),
                            w.next_id == w0.next_id,
                            w.state == w0.state,
                            w.currency == w0.currency,
                            w.entities@ == ents_before,
                            0 <= c,
                            sh.shoot_timer + dt == c * sh.shoot_delay + t,
                            w.queue.items@ == q_pre + repeat_cmd(shot, c),
                            shot == Command::SpawnProjectile(
                                (ProjectileBundle {
                                    projectile: crate::projectiles::Projectile {
                                        damage: PROJECTILE_DAMAGE,
                                    },
                                    lifetime: crate::common::Lifetime {
                                        remaining: PROJECTILE_LIFETIME,
                                    },
                                    radius: SHOT_RADIUS,
                                    position: spawn_pos,
                                    velocity: vel,
                                }),
                            ),
                        decreases t,
                    {
                        t = t - sh.shoot_delay;
                        let b = ProjectileBundle::normal_projectile(SHOT_RADIUS, spawn_pos, vel);
                        w.queue.enqueue(Command::SpawnProjectile(b));
                        proof {
                            assert(Command::SpawnProjectile(b) == shot);
                            c = c + 1;
                            assert(w.queue.items@ =~= q_pre + repeat_cmd(shot, c));
                            assert(c * sh.shoot_delay == (c - 1) * sh.shoot_delay
                                + sh.shoot_delay) by (nonlinear_arith);
                        }
                    }
                    proof {
                        assert(c == (sh.shoot_timer + dt) / (sh.shoot_delay as int) && t == (
                        sh.shoot_timer + dt) % (sh.shoot_delay as int)) by (nonlinear_arith)
                            requires
                                0 < sh.shoot_delay,
                                0 <= t < sh.shoot_delay,
                                0 <= c,
                                sh.shoot_timer + dt == c * sh.shoot_delay + t,
                        ;
                        assert(shots_count(w0.entities@[i as int].shooter.unwrap(), dt) == c);
                        assert(w.queue.items@ =~= w0.queue.items@ + fire_cmds(ti1, dt));
                    }
                    let ghost w_m = *w;
                    w.entities[i].shooter = Option::Some(
                        Shooter { enabled: sh.enabled, shoot_timer: t, shoot_delay: sh.shoot_delay },
                    );
                    proof {
                        assert forall|j2: int| 0 <= j2 < n implies {
                            let e2 = #[trigger] w.entities@[j2];
                            let e1 = w_m.entities@[j2];
                            e2.id == e1.id && ent_wf(e2) && claimed_of(e2) == claimed_of(e1) && (
                            e2.alive && e2.pickup is Some ==> e1.alive && e2.pickup == e1.pickup)
                        } by {
                            if j2 != i as int {
                                assert(w.entities@[j2] == w_m.entities@[j2]);
                            }
                        }
                        lemma_wf_preserved(w_m, *w);
                        assert(non_shooter_fields(w.entities@[i as int]) == non_shooter_fields(
                            w_m.entities@[i as int],
                        ));
                    }
                } else {
                    proof {
                        if w0.entities@[i as int].alive {
                            assert(!sh.enabled);
                            assert(shots_count(sh, dt) == 0);
                            assert(repeat_cmd(shot_of(w0.entities@[i as int]), 0)
                                =~= Seq::<Command>::empty());
                        }
                        assert(w.queue.items@ =~= w0.queue.items@ + fire_cmds(ti1, dt));
                    }
                }
            },
            Option::None => {
                proof {
                    assert(w.queue.items@ =~= w0.queue.items@ + fire_cmds(ti1, dt));
                }
            },
        }
        i = i + 1;
    }
    proof {
        assert(w0.entities@.take(n as int) =~= w0.entities@);
    }
}

} // verus!
