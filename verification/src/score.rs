//! Rewards: the match currency counter, the drop tag read once at
//! death, and the deferred request that scatters collectible money.

use vstd::prelude::*;

use crate::common::OnPickedUp;
use crate::common::PickUp;
use crate::geom::coord_in_range;
use crate::geom::scale_milli;
use crate::geom::speed_in_range;
use crate::geom::Vec2;
use crate::geom::SPEED_LIMIT;
use crate::rng::RngSampler;
use crate::world::claimed_of;
use crate::world::lemma_unique_id;
use crate::world::Entity;
use crate::world::World;

verus! {

/// Lower bound of the radial scatter speed of dropped money, in
/// fixed-point units per second.
pub const MONEY_FORCE_MIN: i64 = 150_000;

/// Upper bound of the radial scatter speed of dropped money.
pub const MONEY_FORCE_MAX: i64 = 300_000;

/// Money collected by the player over the current match.
#[derive(Clone, Copy, Debug, PartialEq, Eq, Structural)]
pub struct PlayerCurrency(pub u32);

/// Amount of money to be dropped on death.
#[derive(Clone, Copy, Debug, PartialEq, Eq, Structural)]
pub struct MoneyDrop(pub u32);

/// Amount of money to be obtained when picked up.
#[derive(Clone, Copy, Debug, PartialEq, Eq, Structural)]
pub struct Money(pub u32);

/// Deferred request to scatter `money` collectibles around `position`,
/// each with a random radial speed inside the given range.
#[derive(Clone, Copy, Debug, PartialEq, Eq, Structural)]
pub struct SpawnMoney {
    pub money: u32,
    pub position: Vec2,
    /// Lower bound of the radial speed, in fixed-point units per second.
    pub force_min: i64,
    /// Upper bound of the radial speed.
    pub force_max: i64,
}

/// Collider radius of a money item: ten units, in fixed-point units.
pub const MONEY_RADIUS: i64 = 10_000;

/// Whether a money scatter request fits the world's ranges.
pub open spec fn spawn_money_valid(cmd: SpawnMoney) -> bool {
    coord_in_range(cmd.position) && 0 <= cmd.force_min <= cmd.force_max <= SPEED_LIMIT
}

/// Shape of one scattered money item: a living collectible worth one,
/// idle, at the request's position, with a bounded random velocity.
pub open spec fn money_item_ok(e: Entity, cmd: SpawnMoney) -> bool {
    &&& e.alive
    &&& e.money == Option::Some(Money(1))
    &&& e.pickup == Option::Some(PickUp::Idle)
    &&& e.pos == cmd.position
    &&& e.radius == MONEY_RADIUS
    &&& speed_in_range(e.vel)
    &&& -cmd.force_max <= e.vel.x <= cmd.force_max
    &&& -cmd.force_max <= e.vel.y <= cmd.force_max
    &&& exists|d: Vec2, f: int|
        -1000 <= d.x <= 1000 && -1000 <= d.y <= 1000 && cmd.force_min <= f <= cmd.force_max
            && e.vel.x == crate::geom::milli_scaled(d.x as int, f) && e.vel.y == #[trigger] crate::geom::milli_scaled(
            d.y as int,
            f,
        ) && e.vel.x == #[trigger] crate::geom::milli_scaled(d.x as int, f)
    &&& claimed_of(e).len() == 0
}

/// Applies a deferred money scatter: spawns `cmd.money` idle
/// collectibles at the request's position, each pushed outward with a
/// random direction and a random speed inside the request's range. An
/// out-of-range request is dropped; spawning stops early only if the
/// id space runs out.
pub fn spawn_money<R: RngSampler>(w: &mut World, cmd: SpawnMoney, rng: &mut R) -> (count: u32)
    requires
        old(w).wf(),
    ensures
        final(w).wf(),
        final(w).queue == old(w).queue,
        final(w).state == old(w).state,
        final(w).currency == old(w).currency,
        !spawn_money_valid(cmd) ==> final(w).entities@ == old(w).entities@ && final(w).next_id
            == old(w).next_id && count == 0,
        spawn_money_valid(cmd) ==> {
            &&& final(w).entities@.len() == old(w).entities@.len() + count
            &&& count <= cmd.money
            &&& (old(w).next_id + cmd.money <= u64::MAX ==> count == cmd.money)
            &&& final(w).entities@.subrange(0, old(w).entities@.len() as int) == old(w).entities@
            &&& final(w).next_id == old(w).next_id + count
            &&& forall|j: int|
                old(w).entities@.len() <= j < final(w).entities@.len() ==> money_item_ok(
                    #[trigger] final(w).entities@[j],
                    cmd,
                ) && final(w).entities@[j].id >= old(w).next_id
        },
{
    if cmd.position.x < -crate::geom::COORD_LIMIT || cmd.position.x > crate::geom::COORD_LIMIT
        || cmd.position.y < -crate::geom::COORD_LIMIT || cmd.position.y
        > crate::geom::COORD_LIMIT {
        return 0;
    }
    if cmd.force_min < 0 || cmd.force_max < cmd.force_min || cmd.force_max > SPEED_LIMIT {
        return 0;
    }
    let ghost w0 = *w;
    let mut count: u32 = 0;
    let mut k: u32 = 0;
    while k < cmd.money
        invariant
            w0 == *old(w),
            w.wf(),
            spawn_money_valid(cmd),
            count == k <= cmd.money,
            w.entities@.len() == w0.entities@.len() + count,
            w.entities@.subrange(0, w0.entities@.len() as int) == w0.entities@,
            w.next_id == w0.next_id + count,
            w.queue == w0.queue,
            w.state == w0.state,
            w.currency == w0.currency,
            forall|j: int|
                w0.entities@.len() <= j < w.entities@.len() ==> money_item_ok(
                    #[trigger] w.entities@[j],
                    cmd,
                ) && w.entities@[j].id >= w0.next_id,
        decreases cmd.money - k,
    {
        let dir = rng.circle();
        let speed = rng.value_range(cmd.force_min, cmd.force_max);
        let vel = scale_milli(dir, speed);
        proof {
            assert(-1000 <= dir.x <= 1000 && -1000 <= dir.y <= 1000 && cmd.force_min
                <= speed as int <= cmd.force_max && vel.x == crate::geom::milli_scaled(
                dir.x as int,
                speed as int,
            ) && vel.y == crate::geom::milli_scaled(dir.y as int, speed as int));
        }
        let mut e = Entity::bare();
        e.pos = cmd.position;
        e.vel = vel;
        e.radius = MONEY_RADIUS;
        e.money = Option::Some(Money(1));
        e.pickup = Option::Some(PickUp::Idle);
        let spawned = w.spawn(e);
        if !spawned {
            proof {
                assert(w.next_id == u64::MAX);
            }
            return count;
        }
        proof {
            assert(w.entities@.subrange(0, w0.entities@.len() as int) =~= w0.entities@);
        }
        count = count + 1;
        k = k + 1;
    }
    count
}

/// Credits a collected money item's value to the match currency,
/// saturating at the counter's ceiling. A stale item or one without a
/// money value credits nothing.
pub fn on_pickup_money(w: &mut World, e_pickup: OnPickedUp)
    requires
        old(w).wf(),
    ensures
        final(w).wf(),
        final(w).entities@ == old(w).entities@,
        final(w).next_id == old(w).next_id,
        final(w).queue == old(w).queue,
        final(w).state == old(w).state,
        final(w).currency.0 >= old(w).currency.0,
        (forall|j: int|
            0 <= j < old(w).entities@.len() ==> !((#[trigger] old(w).entities@[j]).id
                == e_pickup.item_entity && old(w).entities@[j].alive && old(w).entities@[j].money is Some)) ==> final(w).currency == old(w).currency,
        forall|i: int|
            0 <= i < old(w).entities@.len() && (#[trigger] old(w).entities@[i]).id
                == e_pickup.item_entity && old(w).entities@[i].alive && old(w).entities@[i].money is Some ==> final(w).currency == (PlayerCurrency(
                if old(w).currency.0 + old(w).entities@[i].money.unwrap().0 <= u32::MAX {
                    (old(w).currency.0 + old(w).entities@[i].money.unwrap().0) as u32
                } else {
                    u32::MAX
                },
            )),
{
    let found = w.find_alive(e_pickup.item_entity);
    match found {
        Option::None => {},
        Option::Some(i) => {
            let ghost w1 = *w;
            let m = w.entities[i].money;
            match m {
                Option::None => {
                    proof {
                        assert forall|j: int|
                            0 <= j < w1.entities@.len() implies !((#[trigger] w1.entities@[j]).id
                            == e_pickup.item_entity && w1.entities@[j].alive
                            && w1.entities@[j].money is Some) by {
                            if w1.entities@[j].id == e_pickup.item_entity
                                && w1.entities@[j].alive {
                                lemma_unique_id(w1, i as int, j);
                            }
                        }
                    }
                },
                Option::Some(money) => {
                    let c = w.currency.0;
                    if c <= u32::MAX - money.0 {
                        w.currency = PlayerCurrency(c + money.0);
                    } else {
                        w.currency = PlayerCurrency(u32::MAX);
                    }
                    proof {
                        assert forall|j: int|
                            0 <= j < w1.entities@.len() && (#[trigger] w1.entities@[j]).id
                                == e_pickup.item_entity && w1.entities@[j].alive
                                && w1.entities@[j].money is Some implies j == i as int by {
                            lemma_unique_id(w1, i as int, j);
                        }
                    }
                },
            }
        },
    }
}

} // verus!
