//! Breakable bodies: per-entity health and fragmentation depth, the
//! spawn command for new bodies, and the size/health schedule per tier.

use vstd::prelude::*;

use crate::common::apply_destroy_on_death;
use crate::common::cleanup_cmds;
use crate::common::OnDeath;
use crate::common::OnHit;
use crate::geom::dir_with_len;
use crate::geom::scaled_x;
use crate::geom::scaled_y;
use crate::geom::Vec2;
use crate::score::SpawnMoney;
use crate::score::MONEY_FORCE_MAX;
use crate::score::MONEY_FORCE_MIN;
use crate::world::claimed_of;
use crate::world::ent_wf;
use crate::world::lemma_unique_id;
use crate::world::lemma_wf_preserved;
use crate::world::Command;
use crate::world::Entity;
use crate::world::World;

verus! {

/// Deepest fragmentation tier the world accepts.
pub const DEPTH_LIMIT: u32 = 30;

/// A breakable body: damage lowers `health`; at death a body of
/// positive `depth` splits into two bodies one tier lower.
#[derive(Clone, Copy, Debug, PartialEq, Eq, Structural)]
pub struct Asteroid {
    /// Remaining health, in fixed-point health units; never increases.
    pub health: i64,
    /// Fragmentation tier; zero is terminal and never splits.
    pub depth: u32,
}

/// Deferred request for a new breakable body.
#[derive(Clone, Copy, Debug, PartialEq, Eq, Structural)]
pub struct SpawnAsteroid {
    pub position: Vec2,
    pub velocity: Vec2,
    pub depth: u32,
}

/// Health a freshly spawned body of tier `depth` starts with:
/// two and a half health units per tier above zero.
pub open spec fn health_for(depth: u32) -> int {
    (depth + 1) * 2500
}

/// Visual radius of a body of tier `depth`: one hundred units per tier
/// above zero, in fixed-point units.
pub open spec fn radius_for(depth: u32) -> int {
    (depth + 1) * 100_000
}

/// Collider radius of a body of tier `depth`: the visual radius less
/// ten units of slack.
pub open spec fn collider_for(depth: u32) -> int {
    radius_for(depth) - 10_000
}

/// Speed at which fragments separate from the parent's velocity:
/// fifty units per second, in fixed-point units.
pub const SEPARATION_SPEED: i64 = 50_000;

/// Whether `e` is a living breakable body with id `id`.
pub open spec fn live_asteroid(e: Entity, id: u64) -> bool {
    e.id == id && e.alive && e.asteroid is Some
}

/// `e` with its health replaced.
pub open spec fn with_health(e: Entity, h: int) -> Entity {
    Entity {
        asteroid: Option::Some(Asteroid { health: h as i64, depth: e.asteroid.unwrap().depth }),
        ..e
    }
}

/// X component of the fragment offset: the parent's velocity direction
/// rescaled to the parent's collider radius and turned a quarter turn.
pub open spec fn frag_off_x(e: Entity) -> int {
    -scaled_y(e.vel, e.radius as int)
}

/// Y component of the fragment offset.
pub open spec fn frag_off_y(e: Entity) -> int {
    scaled_x(e.vel, e.radius as int)
}

/// The two fragment spawn requests a dying body of positive depth
/// produces: children one tier lower, placed symmetrically about the
/// parent's death position and separating symmetrically about the
/// parent's velocity.
pub open spec fn frag_cmds(e: Entity) -> Seq<Command> {
    let a = e.asteroid.unwrap();
    if a.depth > 0 {
        let off = (Vec2 { x: frag_off_x(e) as i64, y: frag_off_y(e) as i64 });
        let sep = (Vec2 {
            x: scaled_x(off, SEPARATION_SPEED as int) as i64,
            y: scaled_y(off, SEPARATION_SPEED as int) as i64,
        });
        seq![
            Command::SpawnAsteroid(
                SpawnAsteroid {
                    position: Vec2 { x: (e.pos.x - off.x) as i64, y: (e.pos.y - off.y) as i64 },
                    velocity: Vec2 { x: (e.vel.x - sep.x) as i64, y: (e.vel.y - sep.y) as i64 },
                    depth: (a.depth - 1) as u32,
                },
            ),
            Command::SpawnAsteroid(
                SpawnAsteroid {
                    position: Vec2 { x: (e.pos.x + off.x) as i64, y: (e.pos.y + off.y) as i64 },
                    velocity: Vec2 { x: (e.vel.x + sep.x) as i64, y: (e.vel.y + sep.y) as i64 },
                    depth: (a.depth - 1) as u32,
                },
            ),
        ]
    } else {
        Seq::empty()
    }
}

/// The money-drop request a dying body with a reward tag produces.
pub open spec fn money_cmds(e: Entity) -> Seq<Command> {
    match e.money_drop {
        Option::Some(m) => seq![
            Command::SpawnMoney(
                SpawnMoney {
                    money: m.0,
                    position: e.pos,
                    force_min: MONEY_FORCE_MIN,
                    force_max: MONEY_FORCE_MAX,
                },
            ),
        ],
        Option::None => Seq::empty(),
    }
}

/// Exact executable counterpart of `health_for`.
pub fn health_of(depth: u32) -> (r: i64)
    requires
        depth <= DEPTH_LIMIT,
    ensures
        r == health_for(depth),
{
    (depth as i64 + 1) * 2500
}

/// Exact executable counterpart of `collider_for`.
pub fn collider_of(depth: u32) -> (r: i64)
    requires
        depth <= DEPTH_LIMIT,
    ensures
        r == collider_for(depth),
{
    (depth as i64 + 1) * 100_000 - 10_000
}

/// Powers of two.
pub open spec fn pow2(n: nat) -> nat
    decreases n,
{
    if n == 0 {
        1
    } else {
        2 * pow2((n - 1) as nat)
    }
}

/// Total entities a full cascade from one root of tier `d` produces,
/// counting the root: every death above tier zero makes exactly two
/// children one tier lower (`frag_cmds`), and tier zero makes none.
pub open spec fn cascade_total(d: nat) -> nat
    decreases d,
{
    if d == 0 {
        1
    } else {
        1 + 2 * cascade_total((d - 1) as nat)
    }
}

/// Fragmentation counting: a root of tier `d` produces, over its full
/// cascade, exactly `2^(d+1) - 1` entities including itself.
pub proof fn lemma_fragmentation_cascade(d: nat)
    ensures
        cascade_total(d) == pow2(d + 1) - 1,
    decreases d,
{
    if d == 0 {
        assert(pow2(1) == 2 * pow2(0));
        assert(pow2(0) == 1);
    } else {
        lemma_fragmentation_cascade((d - 1) as nat);
        assert(pow2(d + 1) == 2 * pow2(d));
    }
}

/// Fragmentation tiers strictly fall: a dying body of positive tier
/// requests exactly two children, both one tier lower; a body of tier
/// zero requests none.
pub proof fn lemma_fragment_depths(e: Entity)
    requires
        e.asteroid is Some,
    ensures
        e.asteroid.unwrap().depth == 0 ==> frag_cmds(e).len() == 0,
        e.asteroid.unwrap().depth > 0 ==> frag_cmds(e).len() == 2 && (forall|k: int|
            0 <= k < frag_cmds(e).len() ==> ((#[trigger] frag_cmds(e)[k]) matches
                Command::SpawnAsteroid(c) && c.depth == e.asteroid.unwrap().depth - 1)),
{
}

/// Fragmentation geometry: the two children of a dying body stand
/// symmetrically about the parent's death position, and their
/// velocities symmetrically about the parent's velocity.
pub proof fn lemma_fragment_symmetry(e: Entity)
    requires
        ent_wf(e),
        e.asteroid is Some,
        e.asteroid.unwrap().depth > 0,
    ensures
        frag_cmds(e).len() == 2,
        frag_cmds(e)[0] matches Command::SpawnAsteroid(c0) && frag_cmds(e)[1] matches
            Command::SpawnAsteroid(c1) && c0.position.x + c1.position.x == 2 * e.pos.x
            && c0.position.y + c1.position.y == 2 * e.pos.y && c0.velocity.x + c1.velocity.x == 2
            * e.vel.x && c0.velocity.y + c1.velocity.y == 2 * e.vel.y,
{
    let off = (Vec2 { x: frag_off_x(e) as i64, y: frag_off_y(e) as i64 });
    crate::geom::lemma_component_le_ilen(e.vel);
    crate::geom::lemma_sqrt_of(crate::geom::len2(e.vel) as nat);
    if crate::geom::ilen(e.vel) != 0 {
        crate::geom::lemma_mul_div_bound(
            vstd::math::abs(e.vel.x as int) as int,
            e.radius as int,
            crate::geom::ilen(e.vel),
        );
        crate::geom::lemma_mul_div_bound(
            vstd::math::abs(e.vel.y as int) as int,
            e.radius as int,
            crate::geom::ilen(e.vel),
        );
    }
    assert(-e.radius <= frag_off_x(e) <= e.radius);
    assert(-e.radius <= frag_off_y(e) <= e.radius);
    crate::geom::lemma_component_le_ilen(off);
    crate::geom::lemma_sqrt_of(crate::geom::len2(off) as nat);
    if crate::geom::ilen(off) != 0 {
        crate::geom::lemma_mul_div_bound(
            vstd::math::abs(off.x as int) as int,
            SEPARATION_SPEED as int,
            crate::geom::ilen(off),
        );
        crate::geom::lemma_mul_div_bound(
            vstd::math::abs(off.y as int) as int,
            SEPARATION_SPEED as int,
            crate::geom::ilen(off),
        );
    }
    assert(-SEPARATION_SPEED <= scaled_x(off, SEPARATION_SPEED as int) <= SEPARATION_SPEED);
    assert(-SEPARATION_SPEED <= scaled_y(off, SEPARATION_SPEED as int) <= SEPARATION_SPEED);
}

/// Whether a spawn request describes a body the world can hold.
pub open spec fn spawn_asteroid_valid(cmd: SpawnAsteroid) -> bool {
    cmd.depth <= DEPTH_LIMIT && crate::geom::coord_in_range(cmd.position)
        && crate::geom::speed_in_range(cmd.velocity)
}

/// The entity a spawn request produces, before identity is stamped:
/// a breakable body with tier-scheduled health and collider, a reward
/// tag one above its tier, deadly to the player, removed on death.
pub open spec fn asteroid_entity(cmd: SpawnAsteroid) -> Entity {
    Entity {
        pos: cmd.position,
        vel: cmd.velocity,
        radius: collider_for(cmd.depth) as i64,
        asteroid: Option::Some(Asteroid { health: health_for(cmd.depth) as i64, depth: cmd.depth }),
        money_drop: Option::Some(crate::score::MoneyDrop((cmd.depth + 1) as u32)),
        kill_player_on_touch: true,
        destroy_on_death: true,
        ..Entity::bare_spec()
    }
}

/// Applies a deferred asteroid spawn: appends the tier-scheduled body,
/// or drops the request when it is out of the world's ranges or the id
/// space is exhausted.
pub fn spawn_asteroid(w: &mut World, cmd: SpawnAsteroid) -> (spawned: bool)
    requires
        old(w).wf(),
    ensures
        final(w).wf(),
        spawned == (spawn_asteroid_valid(cmd) && old(w).next_id < u64::MAX),
        spawned ==> final(w).entities@ == old(w).entities@.push(
            (Entity { id: old(w).next_id, alive: true, ..asteroid_entity(cmd) }),
        ) && final(w).next_id == old(w).next_id + 1,
        !spawned ==> final(w).entities@ == old(w).entities@ && final(w).next_id == old(w).next_id,
        final(w).queue == old(w).queue,
        final(w).state == old(w).state,
        final(w).currency == old(w).currency,
{
    if cmd.depth > DEPTH_LIMIT {
        return false;
    }
    if cmd.position.x < -crate::geom::COORD_LIMIT || cmd.position.x > crate::geom::COORD_LIMIT
        || cmd.position.y < -crate::geom::COORD_LIMIT || cmd.position.y
        > crate::geom::COORD_LIMIT {
        return false;
    }
    if cmd.velocity.x < -crate::geom::SPEED_LIMIT || cmd.velocity.x > crate::geom::SPEED_LIMIT
        || cmd.velocity.y < -crate::geom::SPEED_LIMIT || cmd.velocity.y
        > crate::geom::SPEED_LIMIT {
        return false;
    }
    let health = health_of(cmd.depth);
    let radius = collider_of(cmd.depth);
    let mut e = Entity::bare();
    e.pos = cmd.position;
    e.vel = cmd.velocity;
    e.radius = radius;
    e.asteroid = Option::Some(Asteroid { health, depth: cmd.depth });
    e.money_drop = Option::Some(crate::score::MoneyDrop(cmd.depth + 1));
    e.kill_player_on_touch = true;
    e.destroy_on_death = true;
    w.spawn(e)
}

/// Damage application, the destructible registry's entry point. A
/// stale target, a target without a breakable body, or a body already
/// at or below zero health is a no-op. Otherwise the hit's damage is
/// subtracted exactly once, a hit-flash request is queued for the
/// rendering collaborator, and when health first reaches zero or below
/// the death notification fans out exactly once: reward and
/// fragmentation read the dying body, then generic cleanup queues its
/// removal.
pub fn on_asteroid_hit(w: &mut World, target: u64, e_hit: OnHit)
    requires
        old(w).wf(),
        e_hit.0.wf(),
    ensures
        final(w).wf(),
        final(w).next_id == old(w).next_id,
        final(w).state == old(w).state,
        final(w).currency == old(w).currency,
        (forall|j: int|
            0 <= j < old(w).entities@.len() ==> !live_asteroid(
                #[trigger] old(w).entities@[j],
                target,
            )) ==> final(w).entities@ == old(w).entities@ && final(w).queue.items@ == old(w).queue.items@,
        forall|i: int|
            0 <= i < old(w).entities@.len() && live_asteroid(#[trigger] old(w).entities@[i], target)
                ==> {
                let e = old(w).entities@[i];
                let a = e.asteroid.unwrap();
                let h2 = a.health - e_hit.0.damage;
                if a.health <= 0 {
                    final(w).entities@ == old(w).entities@ && final(w).queue.items@ == old(w).queue.items@
                } else {
                    final(w).entities@ == old(w).entities@.update(i, with_health(e, h2))
                        && final(w).queue.items@ == old(w).queue.items@ + seq![
                        Command::HitFlash(target),
                    ] + (if h2 <= 0 {
                        money_cmds(e) + frag_cmds(e) + cleanup_cmds(e)
                    } else {
                        Seq::empty()
                    })
                }
            },
{
    let hit = e_hit.0;
    let found = w.find_alive(target);
    match found {
        Option::None => {},
        Option::Some(i) => {
            let ghost w1 = *w;
            let e_ast = w.entities[i].asteroid;
            match e_ast {
                Option::None => {
                    proof {
                        assert forall|j: int| 0 <= j < w1.entities@.len() implies !live_asteroid(
                            #[trigger] w1.entities@[j],
                            target,
                        ) by {
                            if w1.entities@[j].id == target && w1.entities@[j].alive {
                                lemma_unique_id(w1, i as int, j);
                            }
                        }
                    }
                },
                Option::Some(a) => {
                    proof {
                        assert(ent_wf(w1.entities@[i as int]));
                    }
                    if a.health > 0 {
                        let newh = a.health - hit.damage;
                        w.entities[i].asteroid = Option::Some(
                            Asteroid { health: newh, depth: a.depth },
                        );
                        w.queue.enqueue(Command::HitFlash(target));
                        proof {
                            assert(w.entities@ =~= w1.entities@.update(
                                i as int,
                                with_health(w1.entities@[i as int], newh as int),
                            ));
                            assert forall|j: int| 0 <= j < w.entities@.len() implies {
                                let e2 = #[trigger] w.entities@[j];
                                let e1 = w1.entities@[j];
                                e2.id == e1.id && ent_wf(e2) && claimed_of(e2) == claimed_of(e1)
                                    && (e2.alive && e2.pickup is Some ==> e1.alive && e2.pickup
                                    == e1.pickup)
                            } by {
                                if j != i as int {
                                    assert(w.entities@[j] == w1.entities@[j]);
                                }
                            }
                            lemma_wf_preserved(w1, *w);
                        }
                        let ghost w2 = *w;
                        if newh <= 0 {
                            on_asteroid_death(w, target, OnDeath(hit));
                            apply_destroy_on_death(w, target);
                            proof {
                                let ie = i as int;
                                assert(live_asteroid(w2.entities@[ie], target));
                                assert(money_cmds(w2.entities@[ie]) == money_cmds(
                                    w1.entities@[ie],
                                ));
                                assert(frag_cmds(w2.entities@[ie]) =~= frag_cmds(
                                    w1.entities@[ie],
                                ));
                                assert(cleanup_cmds(w2.entities@[ie]) == cleanup_cmds(
                                    w1.entities@[ie],
                                ));
                                assert(w.queue.items@ =~= w1.queue.items@ + seq![
                                    Command::HitFlash(target),
                                ] + (money_cmds(w1.entities@[ie]) + frag_cmds(w1.entities@[ie])
                                    + cleanup_cmds(w1.entities@[ie])));
                            }
                        } else {
                            proof {
                                assert(w.queue.items@ =~= w1.queue.items@ + seq![
                                    Command::HitFlash(target),
                                ] + Seq::<Command>::empty());
                            }
                        }
                        proof {
                            assert forall|j: int|
                                0 <= j < w1.entities@.len() && live_asteroid(
                                    #[trigger] w1.entities@[j],
                                    target,
                                ) implies j == i as int by {
                                lemma_unique_id(w1, i as int, j);
                            }
                        }
                    }
                },
            }
        },
    }
}

/// Fragmentation and reward emission on death. Reads the dying body's
/// position, velocity and collider before any despawn is applied, and
/// queues the money drop (if the body carries a reward tag) followed by
/// the two fragment requests (if its depth is positive). A stale or
/// non-breakable target changes nothing.
pub fn on_asteroid_death(w: &mut World, target: u64, e_death: OnDeath)
    requires
        old(w).wf(),
    ensures
        final(w).wf(),
        final(w).entities@ == old(w).entities@,
        final(w).next_id == old(w).next_id,
        final(w).state == old(w).state,
        final(w).currency == old(w).currency,
        (forall|j: int|
            0 <= j < old(w).entities@.len() ==> !live_asteroid(
                #[trigger] old(w).entities@[j],
                target,
            )) ==> final(w).queue.items@ == old(w).queue.items@,
        forall|i: int|
            0 <= i < old(w).entities@.len() && live_asteroid(#[trigger] old(w).entities@[i], target)
                ==> final(w).queue.items@ == old(w).queue.items@ + money_cmds(old(w).entities@[i])
                + frag_cmds(old(w).entities@[i]),
{
    let found = w.find_alive(target);
    match found {
        Option::None => {},
        Option::Some(i) => {
            let ghost w1 = *w;
            let e_ast = w.entities[i].asteroid;
            let e_pos = w.entities[i].pos;
            let e_vel = w.entities[i].vel;
            let e_radius = w.entities[i].radius;
            let e_money = w.entities[i].money_drop;
            match e_ast {
                Option::None => {
                    proof {
                        assert forall|j: int| 0 <= j < w1.entities@.len() implies !live_asteroid(
                            #[trigger] w1.entities@[j],
                            target,
                        ) by {
                            if w1.entities@[j].id == target && w1.entities@[j].alive {
                                lemma_unique_id(w1, i as int, j);
                            }
                        }
                    }
                },
                Option::Some(a) => {
                    proof {
                        assert(ent_wf(w1.entities@[i as int]));
                    }
                    match e_money {
                        Option::Some(m) => {
                            w.queue.enqueue(
                                Command::SpawnMoney(
                                    SpawnMoney {
                                        money: m.0,
                                        position: e_pos,
                                        force_min: MONEY_FORCE_MIN,
                                        force_max: MONEY_FORCE_MAX,
                                    },
                                ),
                            );
                        },
                        Option::None => {},
                    }
                    if a.depth > 0 {
                        let d = dir_with_len(e_vel, e_radius);
                        let off = d.perp();
                        let sep = dir_with_len(off, SEPARATION_SPEED);
                        let p1 = Vec2 { x: e_pos.x - off.x, y: e_pos.y - off.y };
                        let v1 = Vec2 { x: e_vel.x - sep.x, y: e_vel.y - sep.y };
                        let p2 = Vec2 { x: e_pos.x + off.x, y: e_pos.y + off.y };
                        let v2 = Vec2 { x: e_vel.x + sep.x, y: e_vel.y + sep.y };
                        w.queue.enqueue(
                            Command::SpawnAsteroid(
                                SpawnAsteroid { position: p1, velocity: v1, depth: a.depth - 1 },
                            ),
                        );
                        w.queue.enqueue(
                            Command::SpawnAsteroid(
                                SpawnAsteroid { position: p2, velocity: v2, depth: a.depth - 1 },
                            ),
                        );
                    }
                    proof {
                        assert(w.queue.items@ =~= w1.queue.items@ + money_cmds(
                            w1.entities@[i as int],
                        ) + frag_cmds(w1.entities@[i as int]));
                        assert forall|j: int|
                            0 <= j < w1.entities@.len() && live_asteroid(
                                #[trigger] w1.entities@[j],
                                target,
                            ) implies w.queue.items@ == w1.queue.items@ + money_cmds(
                            w1.entities@[j],
                        ) + frag_cmds(w1.entities@[j]) by {
                            lemma_unique_id(w1, i as int, j);
                        }
                    }
                },
            }
        },
    }
}

} // verus!
