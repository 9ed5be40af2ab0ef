//! The world model: the entity store, the deferred command queue and
//! the per-tick bookkeeping every system works against.
//!
//! Entities are kept in spawn order with strictly increasing ids and
//! are never reindexed: removal marks an entity dead, and dead slots
//! are skipped by every system. Ids are never reused, so a stale id in
//! a queued command or a claimed list can never alias a later entity.
//! All structural changes requested during a tick are buffered in the
//! command queue and applied by `flush` after the requesting systems
//! have finished reading the live state.

use vstd::prelude::*;

use crate::asteroids::Asteroid;
use crate::asteroids::SpawnAsteroid;
use crate::asteroids::DEPTH_LIMIT;
use crate::common::follower::FollowEntity;
use crate::common::HitData;
use crate::common::Lifetime;
use crate::common::PickUp;
use crate::common::PickUpReceiver;
use crate::common::DAMAGE_LIMIT;
use crate::geom::coord_in_range;
use crate::geom::speed_in_range;
use crate::geom::Vec2;
use crate::geom::COORD_LIMIT;
use crate::projectiles::Projectile;
use crate::projectiles::ProjectileBundle;
use crate::scenes::GameStates;
use crate::score::Money;
use crate::score::MoneyDrop;
use crate::score::PlayerCurrency;
use crate::score::SpawnMoney;
use crate::shooter::Shooter;
use crate::spawner::AsteroidSpawner;

verus! {

/// One entity: its identity, its body state, and every optional
/// component a system may read or write.
#[derive(Clone, Debug)]
pub struct Entity {
    /// Identity: unique over the whole history of the world.
    pub id: u64,
    /// Whether the entity is still part of the world.
    pub alive: bool,
    /// World position, in fixed-point units.
    pub pos: Vec2,
    /// Linear velocity, in fixed-point units per second.
    pub vel: Vec2,
    /// Collider radius, in fixed-point units; zero when immaterial.
    pub radius: i64,
    /// Facing direction, a fixed-point vector of length about one unit;
    /// aimed by the look systems, fired along by the shooter.
    pub facing: Vec2,
    pub asteroid: Option<Asteroid>,
    pub money_drop: Option<MoneyDrop>,
    pub money: Option<Money>,
    pub pickup: Option<PickUp>,
    pub receiver: Option<PickUpReceiver>,
    pub lifetime: Option<Lifetime>,
    pub projectile: Option<Projectile>,
    pub shooter: Option<Shooter>,
    pub spawner: Option<AsteroidSpawner>,
    pub follow: Option<FollowEntity>,
    /// Marks the player entity.
    pub player: bool,
    /// Touching this entity kills the player.
    pub kill_player_on_touch: bool,
    /// Despawn this entity when it dies.
    pub destroy_on_death: bool,
}

impl Entity {
    /// The blank entity: no components, origin body, no identity yet
    /// (`World::spawn` stamps id and liveness).
    pub open spec fn bare_spec() -> Entity {
        Entity {
            id: 0,
            alive: false,
            pos: Vec2 { x: 0, y: 0 },
            vel: Vec2 { x: 0, y: 0 },
            radius: 0,
            facing: Vec2 { x: 0, y: 1000 },
            asteroid: Option::None,
            money_drop: Option::None,
            money: Option::None,
            pickup: Option::None,
            receiver: Option::None,
            lifetime: Option::None,
            projectile: Option::None,
            shooter: Option::None,
            spawner: Option::None,
            follow: Option::None,
            player: false,
            kill_player_on_touch: false,
            destroy_on_death: false,
        }
    }

    /// Executable counterpart of `bare_spec`.
    pub fn bare() -> (r: Entity)
        ensures
            r == Entity::bare_spec(),
    {
        Entity {
            id: 0,
            alive: false,
            pos: Vec2 { x: 0, y: 0 },
            vel: Vec2 { x: 0, y: 0 },
            radius: 0,
            facing: Vec2 { x: 0, y: 1000 },
            asteroid: Option::None,
            money_drop: Option::None,
            money: Option::None,
            pickup: Option::None,
            receiver: Option::None,
            lifetime: Option::None,
            projectile: Option::None,
            shooter: Option::None,
            spawner: Option::None,
            follow: Option::None,
            player: false,
            kill_player_on_touch: false,
            destroy_on_death: false,
        }
    }
}

/// The ids a receiver entity is currently pulling; empty for entities
/// that are not receivers.
pub open spec fn claimed_of(e: Entity) -> Seq<u64> {
    match e.receiver {
        Option::Some(r) => r.entities_picked@,
        Option::None => Seq::empty(),
    }
}

/// Per-entity well-formedness: every numeric field fits the world's
/// ranges, so that the systems' fixed-point arithmetic cannot overflow.
pub open spec fn ent_wf(e: Entity) -> bool {
    &&& coord_in_range(e.pos)
    &&& speed_in_range(e.vel)
    &&& 0 <= e.radius <= COORD_LIMIT
    &&& -1000 <= e.facing.x <= 1000 && -1000 <= e.facing.y <= 1000
    &&& match e.asteroid {
        Option::Some(a) => a.depth <= DEPTH_LIMIT && -DAMAGE_LIMIT < a.health <= DAMAGE_LIMIT,
        Option::None => true,
    }
    &&& match e.receiver {
        Option::Some(r) => r.wf(),
        Option::None => true,
    }
    &&& match e.shooter {
        Option::Some(s) => s.wf(),
        Option::None => true,
    }
    &&& match e.spawner {
        Option::Some(s) => s.timer.wf(),
        Option::None => true,
    }
    &&& match e.projectile {
        Option::Some(p) => 0 < p.damage <= DAMAGE_LIMIT,
        Option::None => true,
    }
    &&& match e.follow {
        Option::Some(f) => coord_in_range(f.offset),
        Option::None => true,
    }
}

/// A deferred structural change, applied by `flush` after the
/// requesting system finished its read of the world.
#[derive(Clone, Copy, Debug, PartialEq, Eq, Structural)]
pub enum Command {
    /// Spawn a breakable body.
    SpawnAsteroid(SpawnAsteroid),
    /// Scatter collectible money.
    SpawnMoney(SpawnMoney),
    /// Spawn the player.
    SpawnPlayer,
    /// Spawn a projectile.
    SpawnProjectile(ProjectileBundle),
    /// Remove the entity with this id; a no-op on a stale id.
    Despawn(u64),
    /// Ask the rendering collaborator for a hit flash on this entity.
    HitFlash(u64),
}

/// The deferred command queue: buffers requests in order.
#[derive(Clone, Debug)]
pub struct CommandQueue {
    pub items: Vec<Command>,
}

impl CommandQueue {
    pub fn new() -> (r: CommandQueue)
        ensures
            r.items@ == Seq::<Command>::empty(),
    {
        CommandQueue { items: Vec::new() }
    }

    /// Buffers `cmd` behind everything already queued.
    pub fn enqueue(&mut self, cmd: Command)
        ensures
            final(self).items@ == old(self).items@.push(cmd),
    {
        self.items.push(cmd);
    }
}

/// The whole mutable game state the core systems touch.
#[derive(Clone, Debug)]
pub struct World {
    /// The id the next spawned entity will get.
    pub next_id: u64,
    /// Every entity ever spawned, in spawn order; dead ones stay as
    /// tombstones so ids are never reused.
    pub entities: Vec<Entity>,
    /// The deferred command queue.
    pub queue: CommandQueue,
    /// The current scene.
    pub state: GameStates,
    /// Money collected by the player this match.
    pub currency: PlayerCurrency,
}

impl World {
    /// Ids are strictly increasing along the store and all below `next_id`.
    pub open spec fn ids_ok(self) -> bool {
        &&& forall|i: int, j: int|
            0 <= i < j < self.entities@.len() ==> #[trigger] self.entities@[i].id
                < #[trigger] self.entities@[j].id
        &&& forall|i: int|
            0 <= i < self.entities@.len() ==> (#[trigger] self.entities@[i].id) < self.next_id
    }

    /// Every entity satisfies the per-entity bounds.
    pub open spec fn ents_wf(self) -> bool {
        forall|i: int| 0 <= i < self.entities@.len() ==> ent_wf(#[trigger] self.entities@[i])
    }

    /// `cid`, an id found in the claimed list of the receiver at index
    /// `i`, is a past id, and while an item entity with that id is
    /// alive its pickup state names that very receiver.
    pub open spec fn claim_ok(self, i: int, cid: u64) -> bool {
        &&& cid < self.next_id
        &&& forall|j: int|
            0 <= j < self.entities@.len() && (#[trigger] self.entities@[j]).id == cid
                && self.entities@[j].alive && self.entities@[j].pickup is Some
                ==> self.entities@[j].pickup == Option::Some(
                PickUp::Picking(self.entities@[i].id),
            )
    }

    /// Every claimed id is consistent with the item's own claim state.
    pub open spec fn claims_marked(self) -> bool {
        forall|i: int, k: int|
            0 <= i < self.entities@.len() && 0 <= k < claimed_of(self.entities@[i]).len()
                ==> self.claim_ok(i, #[trigger] claimed_of(self.entities@[i])[k])
    }

    /// No id appears twice across (or within) claimed lists: the heart
    /// of claim exclusivity.
    pub open spec fn claims_disjoint(self) -> bool {
        forall|i1: int, k1: int, i2: int, k2: int|
            #![trigger claimed_of(self.entities@[i1])[k1], claimed_of(self.entities@[i2])[k2]]
            0 <= i1 < self.entities@.len() && 0 <= k1 < claimed_of(self.entities@[i1]).len() && 0
                <= i2 < self.entities@.len() && 0 <= k2 < claimed_of(self.entities@[i2]).len() && (
            i1 != i2 || k1 != k2) ==> claimed_of(self.entities@[i1])[k1] != claimed_of(
                self.entities@[i2],
            )[k2]
    }

    /// The world invariant every system preserves.
    pub open spec fn wf(self) -> bool {
        &&& self.ids_ok()
        &&& self.ents_wf()
        &&& self.claims_marked()
        &&& self.claims_disjoint()
    }

    /// The empty world: no entities yet, nothing queued, at the menu.
    pub fn new() -> (r: World)
        ensures
            r.wf(),
            r.entities@.len() == 0,
            r.queue.items@.len() == 0,
            r.next_id == 0,
            r.state == GameStates::Menu,
            r.currency == (PlayerCurrency(0)),
    {
        World {
            next_id: 0,
            entities: Vec::new(),
            queue: CommandQueue::new(),
            state: GameStates::Menu,
            currency: PlayerCurrency(0),
        }
    }

    /// Index of the living entity with id `id`, if any.
    pub fn find_alive(&self, id: u64) -> (r: Option<usize>)
        ensures
            match r {
                Option::Some(i) => i < self.entities@.len() && self.entities@[i as int].id == id
                    && self.entities@[i as int].alive,
                Option::None => forall|j: int|
                    0 <= j < self.entities@.len() ==> !((#[trigger] self.entities@[j]).id == id
                        && self.entities@[j].alive),
            },
    {
        let mut i: usize = 0;
        while i < self.entities.len()
            invariant
                i <= self.entities@.len(),
                forall|j: int|
                    0 <= j < i ==> !((#[trigger] self.entities@[j]).id == id
                        && self.entities@[j].alive),
            decreases self.entities@.len() - i,
        {
            if self.entities[i].id == id && self.entities[i].alive {
                return Option::Some(i);
            }
            i = i + 1;
        }
        Option::None
    }

    /// Position of the first living player entity, if any.
    pub fn find_player(&self) -> (r: Option<Vec2>)
        requires
            self.wf(),
        ensures
            match r {
                Option::Some(p) => coord_in_range(p) && exists|j: int|
                    0 <= j < self.entities@.len() && (#[trigger] self.entities@[j]).alive
                        && self.entities@[j].player && self.entities@[j].pos == p,
                Option::None => forall|j: int|
                    0 <= j < self.entities@.len() ==> !((#[trigger] self.entities@[j]).alive
                        && self.entities@[j].player),
            },
    {
        let mut i: usize = 0;
        while i < self.entities.len()
            invariant
                self.wf(),
                i <= self.entities@.len(),
                forall|j: int|
                    0 <= j < i ==> !((#[trigger] self.entities@[j]).alive
                        && self.entities@[j].player),
            decreases self.entities@.len() - i,
        {
            if self.entities[i].alive && self.entities[i].player {
                proof {
                    assert(ent_wf(self.entities@[i as int]));
                }
                return Option::Some(self.entities[i].pos);
            }
            i = i + 1;
        }
        Option::None
    }

    /// Appends a fresh entity built from `e`, stamping identity and
    /// liveness; refused only when the id space is exhausted (the
    /// request is then dropped, as an invariant-violation fault).
    pub fn spawn(&mut self, e: Entity) -> (spawned: bool)
        requires
            old(self).wf(),
            ent_wf(e),
            claimed_of(e).len() == 0,
        ensures
            final(self).wf(),
            spawned == (old(self).next_id < u64::MAX),
            spawned ==> final(self).entities@ == old(self).entities@.push(
                (Entity { id: old(self).next_id, alive: true, ..e }),
            ) && final(self).next_id == old(self).next_id + 1,
            !spawned ==> final(self).entities@ == old(self).entities@ && final(self).next_id == old(self).next_id,
            final(self).queue == old(self).queue,
            final(self).state == old(self).state,
            final(self).currency == old(self).currency,
    {
        if self.next_id == u64::MAX {
            return false;
        }
        let ghost w1 = *self;
        let id = self.next_id;
        let mut ne = e;
        ne.id = id;
        ne.alive = true;
        self.entities.push(ne);
        self.next_id = id + 1;
        proof {
            lemma_spawn_preserves_wf(w1, *self, ne);
        }
        true
    }

    /// Marks the entity at `idx` dead; its slot and id remain.
    pub fn kill(&mut self, idx: usize)
        requires
            old(self).wf(),
            idx < old(self).entities@.len(),
        ensures
            final(self).wf(),
            final(self).entities@ == old(self).entities@.update(
                idx as int,
                (Entity { alive: false, ..old(self).entities@[idx as int] }),
            ),
            final(self).next_id == old(self).next_id,
            final(self).queue == old(self).queue,
            final(self).state == old(self).state,
            final(self).currency == old(self).currency,
    {
        let ghost w1 = *self;
        self.entities[idx].alive = false;
        proof {
            assert forall|j: int| 0 <= j < self.entities@.len() implies {
                let e2 = #[trigger] self.entities@[j];
                let e1 = w1.entities@[j];
                e2.id == e1.id && ent_wf(e2) && claimed_of(e2) == claimed_of(e1) && (e2.alive
                    && e2.pickup is Some ==> e1.alive && e2.pickup == e1.pickup)
            } by {
                if j != idx {
                    assert(self.entities@[j] == w1.entities@[j]);
                }
            }
            lemma_wf_preserved(w1, *self);
        }
    }
}

/// How many entities one deferred command spawns when applied to a
/// world with ids to spare (invalid requests are dropped and spawn
/// nothing).
pub open spec fn cmd_spawn_count(c: Command) -> nat {
    match c {
        Command::SpawnAsteroid(sa) => if crate::asteroids::spawn_asteroid_valid(sa) {
            1
        } else {
            0
        },
        Command::SpawnMoney(sm) => if crate::score::spawn_money_valid(sm) {
            sm.money as nat
        } else {
            0
        },
        Command::SpawnPlayer => 1,
        Command::SpawnProjectile(b) => if crate::projectiles::spawn_projectile_valid(b) {
            1
        } else {
            0
        },
        Command::Despawn(_) => 0,
        Command::HitFlash(_) => 0,
    }
}

/// Total entities a command sequence spawns, invalid requests dropped.
pub open spec fn cmds_spawn_count(cmds: Seq<Command>) -> nat
    decreases cmds.len(),
{
    if cmds.len() == 0 {
        0
    } else {
        cmds_spawn_count(cmds.drop_last()) + cmd_spawn_count(cmds.last())
    }
}

/// The hit-flash requests of a command sequence, in order: what the
/// rendering collaborator is asked to play after a flush.
pub open spec fn flash_seq(cmds: Seq<Command>) -> Seq<u64>
    decreases cmds.len(),
{
    if cmds.len() == 0 {
        Seq::empty()
    } else {
        flash_seq(cmds.drop_last()) + (match cmds.last() {
            Command::HitFlash(id) => seq![id],
            _ => Seq::empty(),
        })
    }
}

/// Whether entity `e` is what applying the spawn command `c` appends,
/// up to identity and later liveness: the tier-scheduled body of an
/// asteroid request, a scattered money item, the player, or the
/// projectile of its bundle. Non-spawn commands append nothing.
pub open spec fn spawned_from(e: Entity, c: Command) -> bool {
    match c {
        Command::SpawnAsteroid(sa) => crate::asteroids::spawn_asteroid_valid(sa) && (Entity {
            alive: true,
            ..e
        }) == (Entity { id: e.id, alive: true, ..crate::asteroids::asteroid_entity(sa) }),
        Command::SpawnMoney(sm) => crate::score::spawn_money_valid(sm)
            && crate::score::money_item_ok((Entity { alive: true, ..e }), sm),
        Command::SpawnPlayer => crate::player::is_player_entity(e),
        Command::SpawnProjectile(b) => crate::projectiles::spawn_projectile_valid(b) && (Entity {
            alive: true,
            ..e
        }) == (Entity { id: e.id, alive: true, ..crate::projectiles::projectile_entity(b) }),
        Command::Despawn(_) => false,
        Command::HitFlash(_) => false,
    }
}

/// Whether the command sequence asks to despawn `id`.
pub open spec fn has_despawn(cmds: Seq<Command>, id: u64) -> bool {
    exists|k: int| 0 <= k < cmds.len() && cmds[k] == Command::Despawn(id)
}

impl World {
    /// Applies a deferred despawn: marks the living entity with this
    /// id dead; a stale id is a no-op.
    pub fn despawn_id(&mut self, id: u64)
        requires
            old(self).wf(),
        ensures
            final(self).wf(),
            final(self).next_id == old(self).next_id,
            final(self).queue == old(self).queue,
            final(self).state == old(self).state,
            final(self).currency == old(self).currency,
            final(self).entities@.len() == old(self).entities@.len(),
            (forall|j: int|
                0 <= j < old(self).entities@.len() ==> !((#[trigger] old(self).entities@[j]).id
                    == id && old(self).entities@[j].alive)) ==> final(self).entities@ == old(self).entities@,
            forall|i: int|
                0 <= i < old(self).entities@.len() && (#[trigger] old(self).entities@[i]).id == id
                    && old(self).entities@[i].alive ==> final(self).entities@ == old(self).entities@.update(i, (Entity { alive: false, ..old(self).entities@[i] })),
    {
        let found = self.find_alive(id);
        match found {
            Option::Some(i) => {
                let ghost w1 = *self;
                self.kill(i);
                proof {
                    assert forall|j: int|
                        0 <= j < w1.entities@.len() && (#[trigger] w1.entities@[j]).id == id
                            && w1.entities@[j].alive implies j == i as int by {
                        lemma_unique_id(w1, i as int, j);
                    }
                }
            },
            Option::None => {},
        }
    }

    /// Applies every buffered command in enqueue order and empties the
    /// queue. Spawns append fresh entities; despawns mark their targets
    /// dead; returned are the entity ids the rendering collaborator
    /// should flash. A despawn only affects entities that exist when it
    /// is applied, so requests always act on ids recorded before the
    /// flush began.
    pub fn flush<R: crate::rng::RngSampler>(&mut self, rng: &mut R) -> (flashes: Vec<u64>)
        requires
            old(self).wf(),
        ensures
            final(self).wf(),
            final(self).queue.items@.len() == 0,
            final(self).state == old(self).state,
            final(self).currency == old(self).currency,
            flashes@ == flash_seq(old(self).queue.items@),
            final(self).entities@.len() >= old(self).entities@.len(),
            old(self).next_id + cmds_spawn_count(old(self).queue.items@) <= u64::MAX ==> final(self).entities@.len() == old(self).entities@.len() + cmds_spawn_count(
                old(self).queue.items@,
            ),
            forall|j: int|
                0 <= j < old(self).entities@.len() ==> final(self).entities@[j] == (Entity {
                    alive: old(self).entities@[j].alive && !has_despawn(
                        old(self).queue.items@,
                        (#[trigger] old(self).entities@[j]).id,
                    ),
                    ..old(self).entities@[j]
                }),
            forall|j: int|
                old(self).entities@.len() <= j < final(self).entities@.len() ==> (
                #[trigger] final(self).entities@[j]).id >= old(self).next_id,
            forall|j: int|
                old(self).entities@.len() <= j < final(self).entities@.len() ==> exists|k: int|
                    0 <= k < old(self).queue.items@.len() && spawned_from(
                        #[trigger] final(self).entities@[j],
                        old(self).queue.items@[k],
                    ),
    {
        let mut q: Vec<Command> = Vec::new();
        core::mem::swap(&mut q, &mut self.queue.items);
        let mut flashes: Vec<u64> = Vec::new();
        let ghost w0 = *self;
        let ghost n0 = self.entities@.len() as int;
        let mut i: usize = 0;
        while i < q.len()
            invariant
                w0.entities@ == old(self).entities@,
                w0.next_id == old(self).next_id,
                w0.state == old(self).state,
                w0.currency == old(self).currency,
                q@ == old(self).queue.items@,
                n0 == w0.entities@.len() as int,
                i <= q@.len(),
                self.wf(),
                self.queue.items@.len() == 0,
                self.state == w0.state,
                self.currency == w0.currency,
                self.entities@.len() >= n0,
                self.next_id >= w0.next_id,
                flashes@ == flash_seq(q@.take(i as int)),
                w0.next_id + cmds_spawn_count(q@.take(i as int)) <= u64::MAX ==> self.entities@.len()
                    == n0 + cmds_spawn_count(q@.take(i as int)),
                self.entities@.len() - n0 <= cmds_spawn_count(q@.take(i as int)),
                self.next_id - w0.next_id <= self.entities@.len() - n0,
                forall|j: int|
                    0 <= j < n0 ==> self.entities@[j] == (Entity {
                        alive: w0.entities@[j].alive && !has_despawn(
                            q@.take(i as int),
                            (#[trigger] w0.entities@[j]).id,
                        ),
                        ..w0.entities@[j]
                    }),
                forall|j: int|
                    n0 <= j < self.entities@.len() ==> (#[trigger] self.entities@[j]).id
                        >= w0.next_id,
                forall|j: int|
                    n0 <= j < self.entities@.len() ==> exists|k: int|
                        0 <= k < q@.len() && spawned_from(#[trigger] self.entities@[j], q@[k]),
            decreases q@.len() - i,
        {
            let ghost qi = q@.take(i as int);
            let ghost qi1 = q@.take(i as int + 1);
            proof {
                assert(qi1.drop_last() =~= qi);
                assert(qi1.last() == q@[i as int]);
            }
            let c = q[i];
            let ghost w_b = *self;
            match c {
                Command::SpawnAsteroid(sa) => {
                    let spawned = crate::asteroids::spawn_asteroid(self, sa);
                    proof {
                        assert forall|j: int|
                            n0 <= j < self.entities@.len() implies exists|k: int|
                            0 <= k < q@.len() && spawned_from(
                                #[trigger] self.entities@[j],
                                q@[k],
                            ) by {
                            if j < w_b.entities@.len() {
                                assert(self.entities@[j] == w_b.entities@[j]);
                                let k = choose|k: int|
                                    0 <= k < q@.len() && spawned_from(
                                        w_b.entities@[j],
                                        q@[k],
                                    );
                                assert(spawned_from(self.entities@[j], q@[k]));
                            } else {
                                assert(self.entities@[j] == (Entity {
                                    id: w_b.next_id,
                                    alive: true,
                                    ..crate::asteroids::asteroid_entity(sa)
                                }));
                                assert(spawned_from(self.entities@[j], q@[i as int]));
                            }
                        }
                    }
                },
                Command::SpawnMoney(sm) => {
                    crate::score::spawn_money(self, sm, rng);
                    proof {
                        assert forall|j: int|
                            n0 <= j < self.entities@.len() implies exists|k: int|
                            0 <= k < q@.len() && spawned_from(
                                #[trigger] self.entities@[j],
                                q@[k],
                            ) by {
                            if j < w_b.entities@.len() {
                                assert(self.entities@[j] == w_b.entities@.subrange(
                                    0,
                                    w_b.entities@.len() as int,
                                )[j]);
                                assert(self.entities@[j] == w_b.entities@[j]);
                                let k = choose|k: int|
                                    0 <= k < q@.len() && spawned_from(
                                        w_b.entities@[j],
                                        q@[k],
                                    );
                                assert(spawned_from(self.entities@[j], q@[k]));
                            } else {
                                assert(crate::score::money_item_ok(self.entities@[j], sm));
                                assert(self.entities@[j].alive);
                                assert((Entity { alive: true, ..self.entities@[j] })
                                    == self.entities@[j]);
                                assert(spawned_from(self.entities@[j], q@[i as int]));
                            }
                        }
                    }
                },
                Command::SpawnPlayer => {
                    crate::player::spawn_player(self);
                    proof {
                        assert forall|j: int|
                            n0 <= j < self.entities@.len() implies exists|k: int|
                            0 <= k < q@.len() && spawned_from(
                                #[trigger] self.entities@[j],
                                q@[k],
                            ) by {
                            if j < w_b.entities@.len() {
                                assert(self.entities@[j] == w_b.entities@.subrange(
                                    0,
                                    w_b.entities@.len() as int,
                                )[j]);
                                assert(self.entities@[j] == w_b.entities@[j]);
                                let k = choose|k: int|
                                    0 <= k < q@.len() && spawned_from(
                                        w_b.entities@[j],
                                        q@[k],
                                    );
                                assert(spawned_from(self.entities@[j], q@[k]));
                            } else {
                                assert(crate::player::is_player_entity(self.entities@[j]));
                                assert(spawned_from(self.entities@[j], q@[i as int]));
                            }
                        }
                    }
                },
                Command::SpawnProjectile(b) => {
                    crate::projectiles::spawn_projectile(self, b);
                    proof {
                        assert forall|j: int|
                            n0 <= j < self.entities@.len() implies exists|k: int|
                            0 <= k < q@.len() && spawned_from(
                                #[trigger] self.entities@[j],
                                q@[k],
                            ) by {
                            if j < w_b.entities@.len() {
                                assert(self.entities@[j] == w_b.entities@[j]);
                                let k = choose|k: int|
                                    0 <= k < q@.len() && spawned_from(
                                        w_b.entities@[j],
                                        q@[k],
                                    );
                                assert(spawned_from(self.entities@[j], q@[k]));
                            } else {
                                assert(self.entities@[j] == (Entity {
                                    id: w_b.next_id,
                                    alive: true,
                                    ..crate::projectiles::projectile_entity(b)
                                }));
                                assert(spawned_from(self.entities@[j], q@[i as int]));
                            }
                        }
                    }
                },
                Command::Despawn(id) => {
                    self.despawn_id(id);
                    proof {
                        assert forall|j: int|
                            n0 <= j < self.entities@.len() implies exists|k: int|
                            0 <= k < q@.len() && spawned_from(
                                #[trigger] self.entities@[j],
                                q@[k],
                            ) by {
                            let k = choose|k: int|
                                0 <= k < q@.len() && spawned_from(w_b.entities@[j], q@[k]);
                            assert(self.entities@[j] == w_b.entities@[j] || self.entities@[j]
                                == (Entity { alive: false, ..w_b.entities@[j] }));
                            assert((Entity { alive: true, ..self.entities@[j] }) == (Entity {
                                alive: true,
                                ..w_b.entities@[j]
                            }));
                            assert(spawned_from(self.entities@[j], q@[k]));
                        }
                    }
                },
                Command::HitFlash(id) => {
                    flashes.push(id);
                },
            }
            proof {
                assert(flashes@ =~= flash_seq(qi1));
                assert forall|j: int| 0 <= j < n0 implies self.entities@[j] == (Entity {
                    alive: w0.entities@[j].alive && !has_despawn(
                        qi1,
                        (#[trigger] w0.entities@[j]).id,
                    ),
                    ..w0.entities@[j]
                }) by {
                    let id_j = w0.entities@[j].id;
                    if has_despawn(qi1, id_j) {
                        if !has_despawn(qi, id_j) {
                            let k = choose|k: int|
                                0 <= k < qi1.len() && qi1[k] == Command::Despawn(id_j);
                            assert(k == i as int);
                            assert(q@[i as int] == Command::Despawn(id_j));
                        }
                    } else {
                        assert(!has_despawn(qi, id_j)) by {
                            if has_despawn(qi, id_j) {
                                let k = choose|k: int|
                                    0 <= k < qi.len() && qi[k] == Command::Despawn(id_j);
                                assert(qi1[k] == Command::Despawn(id_j));
                            }
                        }
                        if q@[i as int] is Despawn {
                            assert(!(q@[i as int] == Command::Despawn(id_j))) by {
                                if q@[i as int] == Command::Despawn(id_j) {
                                    assert(qi1[i as int] == Command::Despawn(id_j));
                                }
                            }
                        }
                    }
                }
            }
            i = i + 1;
        }
        proof {
            assert(q@.take(q@.len() as int) =~= q@);
        }
        flashes
    }
}

/// Everything the outside collaborators hand the core for one tick:
/// the frame delta, the engine's contact events, and the polled input.
pub struct TickInput {
    /// Frame delta, in milliseconds.
    pub dt: u64,
    /// Contacts that started this frame, from the physics engine.
    pub collisions: Vec<crate::common::OnCollisionEnter>,
    /// Cursor position in world coordinates, from the camera.
    pub cursor: Vec2,
    pub key_up: bool,
    pub key_down: bool,
    pub key_right: bool,
    pub key_left: bool,
    /// Whether the fire button is held.
    pub fire_pressed: bool,
    /// Window width, in fixed-point units, for the spawn ring.
    pub window_width: i64,
}

impl TickInput {
    pub open spec fn wf(self) -> bool {
        &&& self.dt <= crate::common::DT_LIMIT
        &&& crate::geom::coord_in_range(self.cursor)
        &&& 0 <= self.window_width <= crate::spawner::WINDOW_LIMIT
    }
}

/// One fixed update step, running the systems in their scheduled
/// order: input and aim, contact resolution into damage and deaths,
/// firing and spawning, a flush of the structural changes, the pickup
/// claim and attraction phases, followers, the lifetime reaper, and a
/// final flush. Returns the hit-flash requests for the rendering
/// collaborator and the picked-up notifications of this tick.
pub fn tick<R: crate::rng::RngSampler>(w: &mut World, input: &TickInput, rng: &mut R) -> (out: (
    Vec<u64>,
    Vec<crate::common::OnPickedUp>,
))
    requires
        old(w).wf(),
        input.wf(),
    ensures
        final(w).wf(),
        final(w).queue.items@.len() == 0,
        final(w).entities@.len() >= old(w).entities@.len(),
        final(w).currency.0 >= old(w).currency.0,
        final(w).state == old(w).state || final(w).state == GameStates::Menu,
        forall|j: int|
            0 <= j < old(w).entities@.len() ==> (#[trigger] final(w).entities@[j]).id == old(w).entities@[j].id,
        forall|j: int|
            0 <= j < old(w).entities@.len() && (#[trigger] final(w).entities@[j]).alive ==> old(w).entities@[j].alive,
        forall|j: int|
            0 <= j < old(w).entities@.len() && (#[trigger] final(w).entities@[j]).alive && old(w).entities@[j].lifetime is Some ==> final(w).entities@[j].lifetime == Option::Some(
                Lifetime {
                    remaining: (if old(w).entities@[j].lifetime.unwrap().remaining <= input.dt {
                        0u64
                    } else {
                        (old(w).entities@[j].lifetime.unwrap().remaining - input.dt) as u64
                    }),
                },
            ),
        forall|e1: int, e2: int|
            0 <= e1 < e2 < out.1@.len() ==> (#[trigger] out.1@[e1]).item_entity != (
            #[trigger] out.1@[e2]).item_entity,
{
    let ghost n0 = old(w).entities@.len() as int;
    crate::player::player_movement(
        w,
        input.key_up,
        input.key_down,
        input.key_right,
        input.key_left,
        input.dt,
    );
    let ghost g1 = *w;
    crate::player::player_look_at_mouse(w, input.cursor);
    let ghost g2 = *w;
    crate::player::player_input_shooting(w, input.fire_pressed);
    let ghost g3 = *w;
    crate::projectiles::resolve_projectile_collision(w, &input.collisions);
    let ghost g4 = *w;
    crate::player::player_death_touch(w, &input.collisions);
    let ghost g5 = *w;
    crate::shooter::shooter_fire(w, input.dt);
    let ghost g6 = *w;
    crate::spawner::run_asteroid_spawner(w, input.dt, input.window_width, rng);
    let ghost g7 = *w;
    proof {
        assert forall|j: int| 0 <= j < n0 implies (#[trigger] g7.entities@[j]).id == old(w).entities@[j].id && g7.entities@[j].alive == old(w).entities@[j].alive
            && g7.entities@[j].lifetime == old(w).entities@[j].lifetime by {
            assert(crate::player::non_motion_fields(g1.entities@[j])
                == crate::player::non_motion_fields(old(w).entities@[j]));
            assert(crate::player::non_motion_fields(g2.entities@[j])
                == crate::player::non_motion_fields(g1.entities@[j]));
            assert(crate::player::non_motion_fields(g3.entities@[j])
                == crate::player::non_motion_fields(g2.entities@[j]));
            assert(g4.entities@[j] == (Entity { asteroid: g4.entities@[j].asteroid, ..g3.entities@[j] }));
            assert(g5.entities@[j] == g4.entities@[j]);
            assert(crate::shooter::non_shooter_fields(g6.entities@[j])
                == crate::shooter::non_shooter_fields(g5.entities@[j]));
            assert(crate::spawner::non_spawner_fields(g7.entities@[j])
                == crate::spawner::non_spawner_fields(g6.entities@[j]));
        }
    }
    let mut flashes = w.flush(rng);
    let ghost g8 = *w;
    crate::common::detect_pickups(w, input.dt);
    let ghost g9 = *w;
    let events = crate::common::attract_pickups(w, input.dt);
    let ghost g10 = *w;
    crate::common::follower::run_follow_entity(w);
    let ghost g11 = *w;
    crate::common::process_lifetimes(w, input.dt);
    let ghost g12 = *w;
    let mut flashes2 = w.flush(rng);
    proof {
        assert forall|j: int| 0 <= j < n0 implies (#[trigger] w.entities@[j]).id == old(w).entities@[j].id && (w.entities@[j].alive ==> old(w).entities@[j].alive) by {
            assert(g8.entities@[j] == (Entity {
                alive: g8.entities@[j].alive,
                ..g7.entities@[j]
            }));
            assert(crate::common::non_claim_fields(g9.entities@[j])
                == crate::common::non_claim_fields(g8.entities@[j]));
            assert(crate::common::non_attract_fields(g10.entities@[j])
                == crate::common::non_attract_fields(g9.entities@[j]));
            assert(g11.entities@[j] == (Entity { pos: g11.entities@[j].pos, ..g10.entities@[j] }));
            assert(g12.entities@[j] == crate::common::life_ticked(g11.entities@[j], input.dt));
            assert(w.entities@[j] == (Entity {
                alive: w.entities@[j].alive,
                ..g12.entities@[j]
            }));
        }
        assert forall|j: int|
            0 <= j < n0 && (#[trigger] w.entities@[j]).alive && old(w).entities@[j].lifetime is Some implies w.entities@[j].lifetime == Option::Some(
            Lifetime {
                remaining: (if old(w).entities@[j].lifetime.unwrap().remaining <= input.dt {
                    0u64
                } else {
                    (old(w).entities@[j].lifetime.unwrap().remaining - input.dt) as u64
                }),
            },
        ) by {
            assert(g8.entities@[j] == (Entity {
                alive: g8.entities@[j].alive,
                ..g7.entities@[j]
            }));
            assert(crate::common::non_claim_fields(g9.entities@[j])
                == crate::common::non_claim_fields(g8.entities@[j]));
            assert(crate::common::non_attract_fields(g10.entities@[j])
                == crate::common::non_attract_fields(g9.entities@[j]));
            assert(g11.entities@[j] == (Entity { pos: g11.entities@[j].pos, ..g10.entities@[j] }));
            assert(g12.entities@[j] == crate::common::life_ticked(g11.entities@[j], input.dt));
            assert(w.entities@[j] == (Entity {
                alive: w.entities@[j].alive,
                ..g12.entities@[j]
            }));
            assert(g11.entities@[j].lifetime == old(w).entities@[j].lifetime);
            assert(g11.entities@[j].alive);
        }
    }
    flashes.append(&mut flashes2);
    (flashes, events)
}

/// Pickup claim exclusivity: in a well-formed world, an item id stands
/// in at most one receiver's claimed list, at one position. Two
/// occurrences of the same id are the same occurrence.
pub proof fn lemma_claim_exclusive(w: World, i1: int, k1: int, i2: int, k2: int)
    requires
        w.wf(),
        0 <= i1 < w.entities@.len(),
        0 <= k1 < claimed_of(w.entities@[i1]).len(),
        0 <= i2 < w.entities@.len(),
        0 <= k2 < claimed_of(w.entities@[i2]).len(),
        claimed_of(w.entities@[i1])[k1] == claimed_of(w.entities@[i2])[k2],
    ensures
        i1 == i2,
        k1 == k2,
{
}

/// Ids identify a slot: two slots with the same id are the same slot.
pub proof fn lemma_unique_id(w: World, i: int, j: int)
    requires
        w.ids_ok(),
        0 <= i < w.entities@.len(),
        0 <= j < w.entities@.len(),
        w.entities@[i].id == w.entities@[j].id,
    ensures
        i == j,
{
    if i < j {
        assert(w.entities@[i].id < w.entities@[j].id);
    }
    if j < i {
        assert(w.entities@[j].id < w.entities@[i].id);
    }
}

/// A world whose entity slots changed only in ways the claim and id
/// invariants cannot see — same ids, same claimed lists, liveness only
/// falling, claim states stable while alive — is still well formed.
pub proof fn lemma_wf_preserved(w1: World, w2: World)
    requires
        w1.wf(),
        w2.entities@.len() == w1.entities@.len(),
        w2.next_id >= w1.next_id,
        forall|j: int|
            0 <= j < w2.entities@.len() ==> {
                let e2 = #[trigger] w2.entities@[j];
                let e1 = w1.entities@[j];
                e2.id == e1.id && ent_wf(e2) && claimed_of(e2) == claimed_of(e1) && (e2.alive
                    && e2.pickup is Some ==> e1.alive && e2.pickup == e1.pickup)
            },
    ensures
        w2.wf(),
{
    assert forall|i: int, k: int|
        0 <= i < w2.entities@.len() && 0 <= k < claimed_of(w2.entities@[i]).len() implies w2.claim_ok(
        i,
        #[trigger] claimed_of(w2.entities@[i])[k],
    ) by {
        let cid = claimed_of(w2.entities@[i])[k];
        assert(claimed_of(w1.entities@[i])[k] == cid);
        assert(w1.claim_ok(i, cid));
        assert forall|j: int|
            0 <= j < w2.entities@.len() && (#[trigger] w2.entities@[j]).id == cid
                && w2.entities@[j].alive && w2.entities@[j].pickup is Some implies w2.entities@[j].pickup
            == Option::Some(PickUp::Picking(w2.entities@[i].id)) by {
            assert(w1.entities@[j].id == cid && w1.entities@[j].alive);
        }
    }
    assert forall|i1: int, k1: int, i2: int, k2: int|
        #![trigger claimed_of(w2.entities@[i1])[k1], claimed_of(w2.entities@[i2])[k2]]
        0 <= i1 < w2.entities@.len() && 0 <= k1 < claimed_of(w2.entities@[i1]).len() && 0 <= i2
            < w2.entities@.len() && 0 <= k2 < claimed_of(w2.entities@[i2]).len() && (i1 != i2 || k1
            != k2) implies claimed_of(w2.entities@[i1])[k1] != claimed_of(w2.entities@[i2])[k2] by {
        assert(claimed_of(w1.entities@[i1])[k1] != claimed_of(w1.entities@[i2])[k2]);
    }
}

/// Appending a fresh entity with the next id, no claims and a valid
/// body keeps the world well formed.
pub proof fn lemma_spawn_preserves_wf(w1: World, w2: World, ne: Entity)
    requires
        w1.wf(),
        w1.next_id < u64::MAX,
        ne.id == w1.next_id,
        ent_wf(ne),
        claimed_of(ne).len() == 0,
        w2.entities@ == w1.entities@.push(ne),
        w2.next_id == w1.next_id + 1,
    ensures
        w2.wf(),
{
    let n = w1.entities@.len() as int;
    assert forall|i: int, k: int|
        0 <= i < w2.entities@.len() && 0 <= k < claimed_of(w2.entities@[i]).len() implies w2.claim_ok(
        i,
        #[trigger] claimed_of(w2.entities@[i])[k],
    ) by {
        assert(i < n);
        let cid = claimed_of(w2.entities@[i])[k];
        assert(claimed_of(w1.entities@[i])[k] == cid);
        assert(w1.claim_ok(i, cid));
        assert forall|j: int|
            0 <= j < w2.entities@.len() && (#[trigger] w2.entities@[j]).id == cid
                && w2.entities@[j].alive && w2.entities@[j].pickup is Some implies w2.entities@[j].pickup
            == Option::Some(PickUp::Picking(w2.entities@[i].id)) by {
            assert(j < n);
            assert(w1.entities@[j].id == cid && w1.entities@[j].alive);
        }
    }
    assert forall|i1: int, k1: int, i2: int, k2: int|
        #![trigger claimed_of(w2.entities@[i1])[k1], claimed_of(w2.entities@[i2])[k2]]
        0 <= i1 < w2.entities@.len() && 0 <= k1 < claimed_of(w2.entities@[i1]).len() && 0 <= i2
            < w2.entities@.len() && 0 <= k2 < claimed_of(w2.entities@[i2]).len() && (i1 != i2 || k1
            != k2) implies claimed_of(w2.entities@[i1])[k1] != claimed_of(w2.entities@[i2])[k2] by {
        assert(i1 < n && i2 < n);
        assert(claimed_of(w1.entities@[i1])[k1] != claimed_of(w1.entities@[i2])[k2]);
    }
}

} // verus!
