//! Projectiles: time-boxed bodies that deal their damage to whatever
//! they first touch, then remove themselves.

use vstd::prelude::*;

use crate::common::HitData;
use crate::common::Lifetime;
use crate::common::OnCollisionEnter;
use crate::common::OnHit;
use crate::common::DAMAGE_LIMIT;
use crate::geom::dir_with_len;
use crate::geom::scaled_x;
use crate::geom::scaled_y;
use crate::geom::Vec2;
use crate::geom::COORD_LIMIT;
use crate::geom::SPEED_LIMIT;
use crate::world::ent_wf;
use crate::world::lemma_unique_id;
use crate::world::Command;
use crate::world::Entity;
use crate::world::World;

verus! {

/// Damage of an ordinary projectile: one health unit.
pub const PROJECTILE_DAMAGE: i64 = 1000;

/// Lifetime of an ordinary projectile: three hundred seconds, in
/// milliseconds.
pub const PROJECTILE_LIFETIME: u64 = 300_000;

/// The damage a projectile deals on contact.
#[derive(Clone, Copy, Debug, PartialEq, Eq, Structural)]
pub struct Projectile {
    pub damage: i64,
}

/// Everything a new projectile entity is made of.
#[derive(Clone, Copy, Debug, PartialEq, Eq, Structural)]
pub struct ProjectileBundle {
    pub projectile: Projectile,
    pub lifetime: Lifetime,
    /// Collider radius, in fixed-point units.
    pub radius: i64,
    pub position: Vec2,
    pub velocity: Vec2,
}

impl ProjectileBundle {
    /// The ordinary projectile: one unit of damage, a five-minute
    /// lifetime, and the given collider, position and velocity.
    pub fn normal_projectile(radius: i64, position: Vec2, velocity: Vec2) -> (r: Self)
        ensures
            r.projectile.damage == PROJECTILE_DAMAGE,
            r.lifetime.remaining == PROJECTILE_LIFETIME,
            r.radius == radius,
            r.position == position,
            r.velocity == velocity,
    {
        ProjectileBundle {
            projectile: Projectile { damage: PROJECTILE_DAMAGE },
            lifetime: Lifetime::new(PROJECTILE_LIFETIME),
            radius,
            position,
            velocity,
        }
    }
}

/// Whether a projectile bundle fits the world's ranges.
pub open spec fn spawn_projectile_valid(b: ProjectileBundle) -> bool {
    0 < b.projectile.damage <= DAMAGE_LIMIT && 0 <= b.radius <= COORD_LIMIT
        && crate::geom::coord_in_range(b.position) && crate::geom::speed_in_range(b.velocity)
}

/// The entity a projectile bundle produces, before identity is stamped.
pub open spec fn projectile_entity(b: ProjectileBundle) -> Entity {
    Entity {
        pos: b.position,
        vel: b.velocity,
        radius: b.radius,
        projectile: Option::Some(b.projectile),
        lifetime: Option::Some(b.lifetime),
        ..Entity::bare_spec()
    }
}

/// Applies a deferred projectile spawn, dropping an out-of-range
/// bundle or one beyond the id space.
pub fn spawn_projectile(w: &mut World, b: ProjectileBundle) -> (spawned: bool)
    requires
        old(w).wf(),
    ensures
        final(w).wf(),
        spawned == (spawn_projectile_valid(b) && old(w).next_id < u64::MAX),
        spawned ==> final(w).entities@ == old(w).entities@.push(
            (Entity { id: old(w).next_id, alive: true, ..projectile_entity(b) }),
        ) && final(w).next_id == old(w).next_id + 1,
        !spawned ==> final(w).entities@ == old(w).entities@ && final(w).next_id == old(w).next_id,
        final(w).queue == old(w).queue,
        final(w).state == old(w).state,
        final(w).currency == old(w).currency,
{
    if b.projectile.damage <= 0 || b.projectile.damage > DAMAGE_LIMIT {
        return false;
    }
    if b.radius < 0 || b.radius > COORD_LIMIT {
        return false;
    }
    if b.position.x < -COORD_LIMIT || b.position.x > COORD_LIMIT || b.position.y < -COORD_LIMIT
        || b.position.y > COORD_LIMIT {
        return false;
    }
    if b.velocity.x < -SPEED_LIMIT || b.velocity.x > SPEED_LIMIT || b.velocity.y < -SPEED_LIMIT
        || b.velocity.y > SPEED_LIMIT {
        return false;
    }
    let mut e = Entity::bare();
    e.pos = b.position;
    e.vel = b.velocity;
    e.radius = b.radius;
    e.projectile = Option::Some(b.projectile);
    e.lifetime = Option::Some(b.lifetime);
    w.spawn(e)
}

/// Whether `e` is a living projectile with id `id`.
pub open spec fn live_projectile(e: Entity, id: u64) -> bool {
    e.id == id && e.alive && e.projectile is Some
}

/// The hit a projectile deals on contact: its damage, from its
/// position, along its direction of travel.
pub open spec fn projectile_hit(e: Entity) -> HitData {
    HitData {
        point: e.pos,
        dir: Vec2 { x: scaled_x(e.vel, 1000) as i64, y: scaled_y(e.vel, 1000) as i64 },
        dealer: e.id,
        damage: e.projectile.unwrap().damage,
    }
}

/// Whether a living projectile with id `id` stands in `ents`.
pub open spec fn has_live_projectile(ents: Seq<Entity>, id: u64) -> bool {
    exists|j: int| 0 <= j < ents.len() && live_projectile(#[trigger] ents[j], id)
}

/// The index of the living projectile with id `id`; ids are unique in
/// a well-formed world, so there is at most one.
pub open spec fn live_projectile_idx(ents: Seq<Entity>, id: u64) -> int {
    choose|j: int| 0 <= j < ents.len() && live_projectile(#[trigger] ents[j], id)
}

/// Whether a living breakable body with id `id` stands in `ents`.
pub open spec fn has_live_asteroid(ents: Seq<Entity>, id: u64) -> bool {
    exists|j: int| 0 <= j < ents.len() && crate::asteroids::live_asteroid(#[trigger] ents[j], id)
}

/// The index of the living breakable body with id `id`.
pub open spec fn live_asteroid_idx(ents: Seq<Entity>, id: u64) -> int {
    choose|j: int| 0 <= j < ents.len() && crate::asteroids::live_asteroid(#[trigger] ents[j], id)
}

/// What one delivered hit does to the entity store and the command
/// queue: the mirror of `hit_entity`'s contract as a function. A stale
/// or non-projectile source changes nothing; otherwise the projectile
/// queues its own removal and, when the target is a living breakable
/// body above zero health, the registry's damage/death fan-out applies.
pub open spec fn hit_outcome(ents: Seq<Entity>, q: Seq<Command>, source: u64, target: u64) -> (
    Seq<Entity>,
    Seq<Command>,
) {
    if !has_live_projectile(ents, source) {
        (ents, q)
    } else {
        let h = projectile_hit(ents[live_projectile_idx(ents, source)]);
        if !has_live_asteroid(ents, target) {
            (ents, q.push(Command::Despawn(source)))
        } else {
            let i = live_asteroid_idx(ents, target);
            let e = ents[i];
            let a = e.asteroid.unwrap();
            let h2 = a.health - h.damage;
            if a.health <= 0 {
                (ents, q.push(Command::Despawn(source)))
            } else {
                (
                    ents.update(i, crate::asteroids::with_health(e, h2)),
                    q + seq![Command::HitFlash(target)] + (if h2 <= 0 {
                        crate::asteroids::money_cmds(e) + crate::asteroids::frag_cmds(e)
                            + crate::common::cleanup_cmds(e)
                    } else {
                        Seq::empty()
                    }) + seq![Command::Despawn(source)],
                )
            }
        }
    }
}

/// One contact event's dispatch: the first side that is a living
/// projectile (first preferred) hits the other side; a pair without a
/// living projectile changes nothing.
pub open spec fn resolve_step(ents: Seq<Entity>, q: Seq<Command>, ev: OnCollisionEnter) -> (
    Seq<Entity>,
    Seq<Command>,
) {
    if has_live_projectile(ents, ev.first) {
        hit_outcome(ents, q, ev.first, ev.second)
    } else if has_live_projectile(ents, ev.second) {
        hit_outcome(ents, q, ev.second, ev.first)
    } else {
        (ents, q)
    }
}

/// The collision adapter's full outcome: the contact events applied in
/// order.
pub open spec fn resolve_outcome(
    ents: Seq<Entity>,
    q: Seq<Command>,
    evs: Seq<OnCollisionEnter>,
) -> (Seq<Entity>, Seq<Command>)
    decreases evs.len(),
{
    if evs.len() == 0 {
        (ents, q)
    } else {
        let prev = resolve_outcome(ents, q, evs.drop_last());
        resolve_step(prev.0, prev.1, evs.last())
    }
}

/// Delivers a projectile's hit to `target` and queues the removal of
/// the projectile itself. A stale or non-projectile `source` changes
/// nothing; the hit then fans through the destructible registry
/// exactly as `on_asteroid_hit` states.
pub fn hit_entity(w: &mut World, source: u64, target: u64)
    requires
        old(w).wf(),
    ensures
        final(w).wf(),
        final(w).entities@.len() == old(w).entities@.len(),
        final(w).next_id == old(w).next_id,
        final(w).state == old(w).state,
        final(w).currency == old(w).currency,
        ({
            let out = hit_outcome(old(w).entities@, old(w).queue.items@, source, target);
            final(w).entities@ == out.0 && final(w).queue.items@ == out.1
        }),
        (forall|s: int|
            0 <= s < old(w).entities@.len() ==> !live_projectile(
                #[trigger] old(w).entities@[s],
                source,
            )) ==> final(w).entities@ == old(w).entities@ && final(w).queue.items@ == old(w).queue.items@,
        forall|s: int|
            0 <= s < old(w).entities@.len() && live_projectile(#[trigger] old(w).entities@[s], source)
                ==> {
                let h = projectile_hit(old(w).entities@[s]);
                &&& (forall|j: int|
                    0 <= j < old(w).entities@.len() ==> !crate::asteroids::live_asteroid(
                        #[trigger] old(w).entities@[j],
                        target,
                    )) ==> final(w).entities@ == old(w).entities@ && final(w).queue.items@ == old(w).queue.items@.push(Command::Despawn(source))
                &&& forall|i: int|
                    0 <= i < old(w).entities@.len() && crate::asteroids::live_asteroid(
                        #[trigger] old(w).entities@[i],
                        target,
                    ) ==> {
                        let e = old(w).entities@[i];
                        let a = e.asteroid.unwrap();
                        let h2 = a.health - h.damage;
                        if a.health <= 0 {
                            final(w).entities@ == old(w).entities@ && final(w).queue.items@ == old(w).queue.items@.push(Command::Despawn(source))
                        } else {
                            final(w).entities@ == old(w).entities@.update(
                                i,
                                crate::asteroids::with_health(e, h2),
                            ) && final(w).queue.items@ == old(w).queue.items@ + seq![
                                Command::HitFlash(target),
                            ] + (if h2 <= 0 {
                                crate::asteroids::money_cmds(e) + crate::asteroids::frag_cmds(e)
                                    + crate::common::cleanup_cmds(e)
                            } else {
                                Seq::empty()
                            }) + seq![Command::Despawn(source)]
                        }
                    }
            },
{
    let found = w.find_alive(source);
    match found {
        Option::None => {
            proof {
                assert(!has_live_projectile(w.entities@, source)) by {
                    if has_live_projectile(w.entities@, source) {
                        let s2 = choose|s2: int|
                            0 <= s2 < w.entities@.len() && live_projectile(
                                #[trigger] w.entities@[s2],
                                source,
                            );
                        assert(w.entities@[s2].id == source && w.entities@[s2].alive);
                    }
                }
            }
        },
        Option::Some(s) => {
            let ghost w1 = *w;
            let proj = w.entities[s].projectile;
            match proj {
                Option::None => {
                    proof {
                        assert forall|s2: int|
                            0 <= s2 < w1.entities@.len() implies !live_projectile(
                            #[trigger] w1.entities@[s2],
                            source,
                        ) by {
                            if w1.entities@[s2].id == source && w1.entities@[s2].alive {
                                lemma_unique_id(w1, s as int, s2);
                            }
                        }
                        assert(!has_live_projectile(w1.entities@, source));
                    }
                },
                Option::Some(p) => {
                    proof {
                        assert(ent_wf(w1.entities@[s as int]));
                    }
                    let pos = w.entities[s].pos;
                    let vel = w.entities[s].vel;
                    let dir = dir_with_len(vel, 1000);
                    let hit = HitData { point: pos, dir, dealer: source, damage: p.damage };
                    proof {
                        assert(hit == projectile_hit(w1.entities@[s as int]));
                        assert(hit.wf());
                    }
                    crate::asteroids::on_asteroid_hit(w, target, OnHit(hit));
                    w.queue.enqueue(Command::Despawn(source));
                    proof {
                        assert forall|s2: int|
                            0 <= s2 < w1.entities@.len() && live_projectile(
                                #[trigger] w1.entities@[s2],
                                source,
                            ) implies s2 == s as int by {
                            lemma_unique_id(w1, s as int, s2);
                        }
                        assert(live_projectile(w1.entities@[s as int], source));
                        assert(has_live_projectile(w1.entities@, source));
                        assert(live_projectile_idx(w1.entities@, source) == s as int);
                        assert(projectile_hit(w1.entities@[s as int]) == hit);
                        if has_live_asteroid(w1.entities@, target) {
                            let it = live_asteroid_idx(w1.entities@, target);
                            assert(crate::asteroids::live_asteroid(w1.entities@[it], target));
                            assert forall|j2: int|
                                0 <= j2 < w1.entities@.len() && crate::asteroids::live_asteroid(
                                    #[trigger] w1.entities@[j2],
                                    target,
                                ) implies j2 == it by {
                                lemma_unique_id(w1, it, j2);
                            }
                        } else {
                            assert forall|j2: int|
                                0 <= j2 < w1.entities@.len() implies !crate::asteroids::live_asteroid(
                                #[trigger] w1.entities@[j2],
                                target,
                            ) by {
                                if crate::asteroids::live_asteroid(w1.entities@[j2], target) {
                                    assert(has_live_asteroid(w1.entities@, target));
                                }
                            }
                        }
                        let ghost wq = w1.queue.items@;
                        assert forall|i: int|
                            0 <= i < w1.entities@.len() && crate::asteroids::live_asteroid(
                                #[trigger] w1.entities@[i],
                                target,
                            ) implies {
                            let e = w1.entities@[i];
                            let a = e.asteroid.unwrap();
                            let h2 = a.health - hit.damage;
                            if a.health <= 0 {
                                w.entities@ == w1.entities@ && w.queue.items@ == wq.push(
                                    Command::Despawn(source),
                                )
                            } else {
                                w.entities@ == w1.entities@.update(
                                    i,
                                    crate::asteroids::with_health(e, h2),
                                ) && w.queue.items@ == wq + seq![Command::HitFlash(target)] + (
                                if h2 <= 0 {
                                    crate::asteroids::money_cmds(e) + crate::asteroids::frag_cmds(
                                        e,
                                    ) + crate::common::cleanup_cmds(e)
                                } else {
                                    Seq::empty()
                                }) + seq![Command::Despawn(source)]
                            }
                        } by {
                            let e = w1.entities@[i];
                            let a = e.asteroid.unwrap();
                            let h2 = a.health - hit.damage;
                            if a.health > 0 {
                                assert(w.queue.items@ =~= wq + seq![Command::HitFlash(target)] + (
                                if h2 <= 0 {
                                    crate::asteroids::money_cmds(e) + crate::asteroids::frag_cmds(
                                        e,
                                    ) + crate::common::cleanup_cmds(e)
                                } else {
                                    Seq::empty()
                                }) + seq![Command::Despawn(source)]);
                            }
                        }
                    }
                },
            }
        },
    }
}

/// Translates the engine's contact events: for every started contact
/// whose side is a living projectile (the first side preferred), that
/// projectile's hit is delivered to the other entity of the pair, in
/// event order; pairs without a living projectile change nothing. The
/// store and the queue end exactly as `resolve_outcome` folds them.
pub fn resolve_projectile_collision(w: &mut World, events: &Vec<OnCollisionEnter>)
    requires
        old(w).wf(),
    ensures
        final(w).wf(),
        final(w).entities@.len() == old(w).entities@.len(),
        final(w).next_id == old(w).next_id,
        final(w).state == old(w).state,
        final(w).currency == old(w).currency,
        ({
            let out = resolve_outcome(old(w).entities@, old(w).queue.items@, events@);
            final(w).entities@ == out.0 && final(w).queue.items@ == out.1
        }),
        forall|j: int|
            0 <= j < old(w).entities@.len() ==> final(w).entities@[j] == (Entity {
                asteroid: final(w).entities@[j].asteroid,
                ..(#[trigger] old(w).entities@[j])
            }),
{
    let ghost w0 = *w;
    let n = events.len();
    let mut i: usize = 0;
    while i < n
        invariant
            w0 == *old(w),
            w0.wf(),
            w.wf(),
            n == events@.len(),
            i <= n,
            w.entities@.len() == w0.entities@.len(),
            w.next_id == w0.next_id,
            w.state == w0.state,
            w.currency == w0.currency,
            (w.entities@, w.queue.items@) == resolve_outcome(
                w0.entities@,
                w0.queue.items@,
                events@.take(i as int),
            ),
            forall|j: int|
                0 <= j < w0.entities@.len() ==> w.entities@[j] == (Entity {
                    asteroid: w.entities@[j].asteroid,
                    ..(#[trigger] w0.entities@[j])
                }),
        decreases n - i,
    {
        let ghost ti = events@.take(i as int);
        let ghost ti1 = events@.take(i as int + 1);
        let ghost w_b = *w;
        proof {
            assert(ti1.drop_last() =~= ti);
            assert(ti1.last() == events@[i as int]);
        }
        let ev = events[i];
        let first_proj = match w.find_alive(ev.first) {
            Option::Some(j) => w.entities[j].projectile.is_some(),
            Option::None => false,
        };
        proof {
            if first_proj {
                assert(has_live_projectile(w.entities@, ev.first));
            } else {
                assert(!has_live_projectile(w.entities@, ev.first)) by {
                    if has_live_projectile(w.entities@, ev.first) {
                        let s2 = choose|s2: int|
                            0 <= s2 < w.entities@.len() && live_projectile(
                                #[trigger] w.entities@[s2],
                                ev.first,
                            );
                        assert(w.entities@[s2].id == ev.first && w.entities@[s2].alive);
                        let found = choose|jf: int|
                            0 <= jf < w.entities@.len() && w.entities@[jf].id == ev.first
                                && w.entities@[jf].alive;
                        lemma_unique_id(*w, s2, found);
                    }
                }
            }
        }
        if first_proj {
            hit_entity(w, ev.first, ev.second);
            proof {
                assert((w.entities@, w.queue.items@) == resolve_step(
                    w_b.entities@,
                    w_b.queue.items@,
                    events@[i as int],
                ));
            }
        } else {
            let second_proj = match w.find_alive(ev.second) {
                Option::Some(j) => w.entities[j].projectile.is_some(),
                Option::None => false,
            };
            proof {
                if second_proj {
                    assert(has_live_projectile(w.entities@, ev.second));
                } else {
                    assert(!has_live_projectile(w.entities@, ev.second)) by {
                        if has_live_projectile(w.entities@, ev.second) {
                            let s2 = choose|s2: int|
                                0 <= s2 < w.entities@.len() && live_projectile(
                                    #[trigger] w.entities@[s2],
                                    ev.second,
                                );
                            assert(w.entities@[s2].id == ev.second && w.entities@[s2].alive);
                            let found = choose|jf: int|
                                0 <= jf < w.entities@.len() && w.entities@[jf].id == ev.second
                                    && w.entities@[jf].alive;
                            lemma_unique_id(*w, s2, found);
                        }
                    }
                }
            }
            if second_proj {
                hit_entity(w, ev.second, ev.first);
                proof {
                    assert((w.entities@, w.queue.items@) == resolve_step(
                        w_b.entities@,
                        w_b.queue.items@,
                        events@[i as int],
                    ));
                }
            } else {
                proof {
                    assert((w.entities@, w.queue.items@) == resolve_step(
                        w_b.entities@,
                        w_b.queue.items@,
                        events@[i as int],
                    ));
                }
            }
        }
        proof {
            assert forall|j: int| 0 <= j < w0.entities@.len() implies w.entities@[j] == (Entity {
                asteroid: w.entities@[j].asteroid,
                ..(#[trigger] w0.entities@[j])
            }) by {
                assert(w_b.entities@[j] == (Entity {
                    asteroid: w_b.entities@[j].asteroid,
                    ..w0.entities@[j]
                }));
            }
        }
        i = i + 1;
    }
    proof {
        assert(events@.take(n as int) =~= events@);
    }
}

} // verus!
