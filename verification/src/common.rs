//! Shared gameplay components: timers, lifetimes, hit signals and the
//! pickup claim/attract data. Durations are carried in milliseconds.

pub mod follower;

use vstd::prelude::*;

use crate::geom::dist2;
use crate::geom::dist_squared;
use crate::geom::Vec2;
use crate::geom::COORD_LIMIT;
use crate::geom::SPEED_LIMIT;
use crate::world::claimed_of;
use crate::world::ent_wf;
use crate::world::lemma_unique_id;
use crate::world::lemma_wf_preserved;
use crate::world::Entity;
use crate::world::World;

verus! {

/// Largest frame delta a tick accepts: one minute, in milliseconds.
pub const DT_LIMIT: u64 = 60_000;

/// Largest timer period the world accepts: one hour, in milliseconds.
pub const PERIOD_LIMIT: u64 = 3_600_000;

/// Largest damage a single hit may carry, in fixed-point health units.
pub const DAMAGE_LIMIT: i64 = 1_000_000_000;

/// The entity reference used where no dealer is known.
pub const DEALER_PLACEHOLDER: u64 = u64::MAX;

/// A repeating countdown, the model of the engine's repeating timer.
#[derive(Clone, Copy, Debug, PartialEq, Eq, Structural)]
pub struct Timer {
    /// Full period of the timer, in milliseconds.
    pub period: u64,
    /// Time left until the next completion, in milliseconds.
    pub remaining: u64,
}

/// Whether a timer completes during a tick of `dt`.
pub open spec fn timer_fires(t: Timer, dt: u64) -> bool {
    dt >= t.remaining
}

/// The timer after a tick of `dt`: on completion the countdown
/// restarts from the period, keeping the overshoot beyond whole
/// periods.
pub open spec fn timer_after(t: Timer, dt: u64) -> Timer {
    if dt >= t.remaining {
        Timer {
            period: t.period,
            remaining: (t.period - ((dt - t.remaining) % (t.period as int))) as u64,
        }
    } else {
        Timer { period: t.period, remaining: (t.remaining - dt) as u64 }
    }
}

impl Timer {
    /// A repeating timer is well formed when its period is positive,
    /// bounded, and the countdown never exceeds one period.
    pub open spec fn wf(self) -> bool {
        0 < self.period <= PERIOD_LIMIT && 0 < self.remaining <= self.period
    }

    pub fn new(period: u64) -> (r: Timer)
        requires
            0 < period <= PERIOD_LIMIT,
        ensures
            r.period == period,
            r.remaining == period,
            r.wf(),
    {
        Timer { period, remaining: period }
    }

    /// Advances the countdown by `dt` and reports whether the timer
    /// completed during this tick. On completion the countdown restarts
    /// from the period, keeping the overshoot beyond whole periods.
    pub fn tick(&mut self, dt: u64) -> (fired: bool)
        requires
            old(self).wf(),
            dt <= DT_LIMIT,
        ensures
            final(self).wf(),
            fired == timer_fires(*old(self), dt),
            *final(self) == timer_after(*old(self), dt),
    {
        if dt >= self.remaining {
            let over = (dt - self.remaining) % self.period;
            self.remaining = self.period - over;
            true
        } else {
            self.remaining = self.remaining - dt;
            false
        }
    }
}

/// Bounded existence: the entity is removed exactly when the countdown
/// reaches zero, independent of health and death.
#[derive(Clone, Copy, Debug, PartialEq, Eq, Structural)]
pub struct Lifetime {
    /// Time left before removal, in milliseconds.
    pub remaining: u64,
}

impl Lifetime {
    pub fn new(time: u64) -> (r: Lifetime)
        ensures
            r.remaining == time,
    {
        Lifetime { remaining: time }
    }
}

/// Context of one resolved contact: consumed by the destructible
/// registry, echoed into the death signal of a fatal hit.
#[derive(Clone, Copy, Debug, PartialEq, Eq, Structural)]
pub struct HitData {
    /// World position of the contact.
    pub point: Vec2,
    /// Direction of the hit, a fixed-point vector of length about one unit.
    pub dir: Vec2,
    /// The entity that dealt the hit; may be stale or the placeholder.
    pub dealer: u64,
    /// Health subtracted from the target, in fixed-point health units.
    pub damage: i64,
}

impl HitData {
    /// A hit signal carries positive bounded damage, an in-range contact
    /// point and a direction no longer than one unit per axis.
    pub open spec fn wf(self) -> bool {
        0 < self.damage <= DAMAGE_LIMIT && crate::geom::coord_in_range(self.point)
            && -1000 <= self.dir.x <= 1000 && -1000 <= self.dir.y <= 1000
    }
}

impl Default for HitData {
    /// The empty hit: no damage, origin contact, placeholder dealer.
    fn default() -> (r: Self)
        ensures
            r.point == (Vec2 { x: 0, y: 0 }),
            r.dir == (Vec2 { x: 0, y: 0 }),
            r.dealer == DEALER_PLACEHOLDER,
            r.damage == 0,
    {
        HitData {
            point: Vec2 { x: 0, y: 0 },
            dir: Vec2 { x: 0, y: 0 },
            dealer: DEALER_PLACEHOLDER,
            damage: 0,
        }
    }
}

/// A contact pair reported by the collision engine.
#[derive(Clone, Copy, Debug, PartialEq, Eq, Structural)]
pub struct OnCollisionEnter {
    pub first: u64,
    pub second: u64,
}

/// A hit delivered to one entity.
#[derive(Clone, Copy, Debug, PartialEq, Eq, Structural)]
pub struct OnHit(pub HitData);

/// A death notification, carrying the context of the terminal hit.
#[derive(Clone, Copy, Debug, PartialEq, Eq, Structural)]
pub struct OnDeath(pub HitData);

/// Claim state of a collectible item. The claim is one way: an item
/// claimed by a receiver never returns to `Idle`.
#[derive(Clone, Copy, Debug, PartialEq, Eq, Structural)]
pub enum PickUp {
    /// Unclaimed, available to the first receiver that finds it.
    Idle,
    /// Claimed by the receiver entity with this id.
    Picking(u64),
}

/// Collector state: a periodic claim timer, the two radii of the
/// claim/consume phases, the pull speed and the claimed item ids.
#[derive(Clone, Debug, PartialEq, Eq)]
pub struct PickUpReceiver {
    pub check_timer: Timer,
    /// Claim radius, in fixed-point units.
    pub chase_distance: i64,
    /// Consumption radius, in fixed-point units; below the claim radius.
    pub pick_distance: i64,
    /// Pull speed, in fixed-point units per second.
    pub pick_speed: i64,
    /// Items currently pulled toward this receiver, by entity id.
    pub entities_picked: Vec<u64>,
}

impl PickUpReceiver {
    pub open spec fn wf(self) -> bool {
        self.check_timer.wf() && 0 <= self.pick_distance < self.chase_distance <= COORD_LIMIT
            && 0 <= self.pick_speed <= SPEED_LIMIT
    }
}

/// `e` with its claim-related components erased: what the claim phase
/// leaves untouched.
pub open spec fn non_claim_fields(e: Entity) -> Entity {
    Entity { pickup: Option::None, receiver: Option::None, ..e }
}

/// Whether, at the start of a claim phase with frame delta `dt`, the
/// receiver at index `i` fires its claim timer and the living entity
/// at index `j` lies inside its claim disk.
pub open spec fn claim_covers(w: World, dt: u64, i: int, j: int) -> bool {
    &&& 0 <= i < w.entities@.len()
    &&& 0 <= j < w.entities@.len()
    &&& w.entities@[i].alive
    &&& w.entities@[j].alive
    &&& w.entities@[i].receiver matches Option::Some(r) && timer_fires(r.check_timer, dt) && dist2(
        w.entities@[i].pos,
        w.entities@[j].pos,
    ) <= r.chase_distance * r.chase_distance
}

/// Ticks the claim timer of the receiver at index `i`.
fn tick_receiver_timer(w: &mut World, i: usize, dt: u64) -> (fired: bool)
    requires
        old(w).wf(),
        i < old(w).entities@.len(),
        old(w).entities@[i as int].receiver is Some,
        dt <= DT_LIMIT,
    ensures
        final(w).wf(),
        fired == timer_fires(old(w).entities@[i as int].receiver.unwrap().check_timer, dt),
        final(w).entities@ == old(w).entities@.update(
            i as int,
            (Entity {
                receiver: Option::Some(
                    (PickUpReceiver {
                        check_timer: timer_after(
                            old(w).entities@[i as int].receiver.unwrap().check_timer,
                            dt,
                        ),
                        ..old(w).entities@[i as int].receiver.unwrap()
                    }),
                ),
                ..old(w).entities@[i as int]
            }),
        ),
        final(w).next_id == old(w).next_id,
        final(w).queue == old(w).queue,
        final(w).state == old(w).state,
        final(w).currency == old(w).currency,
{
    let ghost w1 = *w;
    let mut taken: Option<PickUpReceiver> = Option::None;
    core::mem::swap(&mut taken, &mut w.entities[i].receiver);
    match taken {
        Option::Some(mut r) => {
            proof {
                assert(ent_wf(w1.entities@[i as int]));
            }
            let fired = r.check_timer.tick(dt);
            w.entities[i].receiver = Option::Some(r);
            proof {
                assert forall|j: int| 0 <= j < w.entities@.len() implies {
                    let e2 = #[trigger] w.entities@[j];
                    let e1 = w1.entities@[j];
                    e2.id == e1.id && ent_wf(e2) && claimed_of(e2) == claimed_of(e1) && (e2.alive
                        && e2.pickup is Some ==> e1.alive && e2.pickup == e1.pickup)
                } by {
                    if j != i as int {
                        assert(w.entities@[j] == w1.entities@[j]);
                    }
                }
                lemma_wf_preserved(w1, *w);
            }
            fired
        },
        Option::None => {
            proof {
                assert(false);
            }
            false
        },
    }
}

/// Marks the living idle item at index `j` as claimed by `rid`.
fn mark_picked(w: &mut World, j: usize, rid: u64)
    requires
        old(w).wf(),
        j < old(w).entities@.len(),
        old(w).entities@[j as int].alive,
        old(w).entities@[j as int].pickup == Option::Some(PickUp::Idle),
    ensures
        final(w).wf(),
        final(w).entities@ == old(w).entities@.update(
            j as int,
            (Entity { pickup: Option::Some(PickUp::Picking(rid)), ..old(w).entities@[j as int] }),
        ),
        final(w).next_id == old(w).next_id,
        final(w).queue == old(w).queue,
        final(w).state == old(w).state,
        final(w).currency == old(w).currency,
{
    let ghost w1 = *w;
    w.entities[j].pickup = Option::Some(PickUp::Picking(rid));
    proof {
        let n = w.entities@.len() as int;
        let idj = w1.entities@[j as int].id;
        assert forall|i2: int, k2: int|
            0 <= i2 < n && 0 <= k2 < claimed_of(w1.entities@[i2]).len() implies claimed_of(
            w1.entities@[i2],
        )[k2] != idj by {
            if claimed_of(w1.entities@[i2])[k2] == idj {
                assert(w1.claim_ok(i2, claimed_of(w1.entities@[i2])[k2]));
                assert(w1.entities@[j as int].pickup == Option::Some(
                    PickUp::Picking(w1.entities@[i2].id),
                ));
            }
        }
        assert forall|i2: int, k2: int|
            0 <= i2 < n && 0 <= k2 < claimed_of(w.entities@[i2]).len() implies w.claim_ok(
            i2,
            #[trigger] claimed_of(w.entities@[i2])[k2],
        ) by {
            assert(claimed_of(w.entities@[i2]) == claimed_of(w1.entities@[i2]));
            let cid = claimed_of(w1.entities@[i2])[k2];
            assert(w1.claim_ok(i2, cid));
            assert(cid != idj);
            assert forall|j2: int|
                0 <= j2 < n && (#[trigger] w.entities@[j2]).id == cid && w.entities@[j2].alive
                    && w.entities@[j2].pickup is Some implies w.entities@[j2].pickup
                == Option::Some(PickUp::Picking(w.entities@[i2].id)) by {
                assert(j2 != j as int);
                assert(w.entities@[j2] == w1.entities@[j2]);
                assert(w1.entities@[j2].id == cid && w1.entities@[j2].alive);
            }
        }
        assert forall|i1: int, k1: int, i2: int, k2: int|
            #![trigger claimed_of(w.entities@[i1])[k1], claimed_of(w.entities@[i2])[k2]]
            0 <= i1 < n && 0 <= k1 < claimed_of(w.entities@[i1]).len() && 0 <= i2 < n && 0 <= k2
                < claimed_of(w.entities@[i2]).len() && (i1 != i2 || k1 != k2) implies claimed_of(
            w.entities@[i1],
        )[k1] != claimed_of(w.entities@[i2])[k2] by {
            assert(claimed_of(w.entities@[i1]) == claimed_of(w1.entities@[i1]));
            assert(claimed_of(w.entities@[i2]) == claimed_of(w1.entities@[i2]));
            assert(claimed_of(w1.entities@[i1])[k1] != claimed_of(w1.entities@[i2])[k2]);
        }
    }
}

/// Appends freshly claimed item ids to the claimed list of the
/// receiver at index `i`. Every id must already be marked as claimed
/// by this very receiver, stand in no claimed list yet, and the batch
/// must be duplicate free: exactly the state the claim scan leaves
/// behind.
fn append_claims(w: &mut World, i: usize, newly: Vec<u64>)
    requires
        old(w).wf(),
        i < old(w).entities@.len(),
        old(w).entities@[i as int].receiver is Some,
        forall|k: int|
            0 <= k < newly@.len() ==> (#[trigger] newly@[k]) < old(w).next_id,
        forall|k: int, j: int|
            0 <= k < newly@.len() && 0 <= j < old(w).entities@.len() && (#[trigger] old(w).entities@[j]).id == (#[trigger] newly@[k]) && old(w).entities@[j].alive && old(w).entities@[j].pickup is Some ==> old(w).entities@[j].pickup == Option::Some(
                PickUp::Picking(old(w).entities@[i as int].id),
            ),
        forall|k: int, i2: int, k2: int|
            0 <= k < newly@.len() && 0 <= i2 < old(w).entities@.len() && 0 <= k2 < claimed_of(
                old(w).entities@[i2],
            ).len() ==> #[trigger] claimed_of(old(w).entities@[i2])[k2] != #[trigger] newly@[k],
        forall|k1: int, k2: int|
            0 <= k1 < k2 < newly@.len() ==> #[trigger] newly@[k1] != #[trigger] newly@[k2],
    ensures
        final(w).wf(),
        final(w).entities@.len() == old(w).entities@.len(),
        forall|j: int|
            0 <= j < old(w).entities@.len() && j != i as int ==> final(w).entities@[j] == old(w).entities@[j],
        final(w).entities@[i as int].receiver matches Option::Some(r2)
            && old(w).entities@[i as int].receiver matches Option::Some(r1) && r2 == (
        PickUpReceiver { entities_picked: r2.entities_picked, ..r1 })
            && r2.entities_picked@ == r1.entities_picked@ + newly@,
        final(w).entities@[i as int] == (Entity {
            receiver: final(w).entities@[i as int].receiver,
            ..old(w).entities@[i as int]
        }),
        final(w).next_id == old(w).next_id,
        final(w).queue == old(w).queue,
        final(w).state == old(w).state,
        final(w).currency == old(w).currency,
{
    let ghost w1 = *w;
    let mut add = newly;
    let mut taken: Option<PickUpReceiver> = Option::None;
    core::mem::swap(&mut taken, &mut w.entities[i].receiver);
    match taken {
        Option::Some(mut r) => {
            r.entities_picked.append(&mut add);
            w.entities[i].receiver = Option::Some(r);
            proof {
                let n = w.entities@.len() as int;
                let ii = i as int;
                let s1 = claimed_of(w1.entities@[ii]);
                let s2 = claimed_of(w.entities@[ii]);
                assert(s2 == s1 + newly@);
                assert forall|i2: int, k2: int|
                    0 <= i2 < n && 0 <= k2 < claimed_of(w.entities@[i2]).len() implies w.claim_ok(
                    i2,
                    #[trigger] claimed_of(w.entities@[i2])[k2],
                ) by {
                    let cid = claimed_of(w.entities@[i2])[k2];
                    if i2 != ii || k2 < s1.len() {
                        assert(claimed_of(w1.entities@[i2])[k2] == cid);
                        assert(w1.claim_ok(i2, cid));
                        assert forall|j2: int|
                            0 <= j2 < n && (#[trigger] w.entities@[j2]).id == cid
                                && w.entities@[j2].alive && w.entities@[j2].pickup is Some implies w.entities@[j2].pickup
                            == Option::Some(PickUp::Picking(w.entities@[i2].id)) by {
                            assert(w.entities@[j2].pickup == w1.entities@[j2].pickup);
                            assert(w1.entities@[j2].id == cid && w1.entities@[j2].alive);
                        }
                    } else {
                        let k = k2 - s1.len();
                        assert(cid == newly@[k]);
                        assert(cid < w.next_id);
                        assert forall|j2: int|
                            0 <= j2 < n && (#[trigger] w.entities@[j2]).id == cid
                                && w.entities@[j2].alive && w.entities@[j2].pickup is Some implies w.entities@[j2].pickup
                            == Option::Some(PickUp::Picking(w.entities@[i2].id)) by {
                            assert(w1.entities@[j2].id == cid && w1.entities@[j2].alive
                                && w1.entities@[j2].pickup is Some);
                        }
                    }
                }
                assert forall|i1: int, k1: int, i2: int, k2: int|
                    #![trigger claimed_of(w.entities@[i1])[k1], claimed_of(w.entities@[i2])[k2]]
                    0 <= i1 < n && 0 <= k1 < claimed_of(w.entities@[i1]).len() && 0 <= i2 < n && 0
                        <= k2 < claimed_of(w.entities@[i2]).len() && (i1 != i2 || k1 != k2) implies claimed_of(
                    w.entities@[i1],
                )[k1] != claimed_of(w.entities@[i2])[k2] by {
                    let a_new = i1 == ii && k1 >= s1.len();
                    let b_new = i2 == ii && k2 >= s1.len();
                    if a_new && b_new {
                        assert(newly@[k1 - s1.len()] != newly@[k2 - s1.len()]);
                    } else if a_new && !b_new {
                        assert(claimed_of(w1.entities@[i2])[k2] != newly@[k1 - s1.len()]);
                    } else if !a_new && b_new {
                        assert(claimed_of(w1.entities@[i1])[k1] != newly@[k2 - s1.len()]);
                    } else {
                        assert(claimed_of(w1.entities@[i1])[k1] != claimed_of(
                            w1.entities@[i2],
                        )[k2]);
                    }
                }
                assert forall|j: int| 0 <= j < n implies ent_wf(#[trigger] w.entities@[j]) by {
                    assert(ent_wf(w1.entities@[j]));
                }
            }
        },
        Option::None => {
            proof {
                assert(false);
            }
        },
    }
}

/// Claims the living idle item at index `j` for the receiver at index
/// `i`: the item switches to `Picking` naming the receiver, and the
/// item's id is appended to the receiver's claimed list.
fn claim_one(w: &mut World, i: usize, j: usize)
    requires
        old(w).wf(),
        i < old(w).entities@.len(),
        j < old(w).entities@.len(),
        old(w).entities@[i as int].receiver is Some,
        old(w).entities@[j as int].alive,
        old(w).entities@[j as int].pickup == Option::Some(PickUp::Idle),
    ensures
        final(w).wf(),
        final(w).entities@.len() == old(w).entities@.len(),
        final(w).next_id == old(w).next_id,
        final(w).queue == old(w).queue,
        final(w).state == old(w).state,
        final(w).currency == old(w).currency,
        forall|k: int|
            0 <= k < old(w).entities@.len() && k != i as int && k != j as int ==> final(w).entities@[k] == old(w).entities@[k],
        final(w).entities@[j as int].pickup == Option::Some(
            PickUp::Picking(old(w).entities@[i as int].id),
        ),
        final(w).entities@[j as int] == (Entity {
            pickup: final(w).entities@[j as int].pickup,
            receiver: final(w).entities@[j as int].receiver,
            ..old(w).entities@[j as int]
        }),
        i != j ==> final(w).entities@[j as int].receiver == old(w).entities@[j as int].receiver,
        final(w).entities@[i as int] == (Entity {
            pickup: final(w).entities@[i as int].pickup,
            receiver: final(w).entities@[i as int].receiver,
            ..old(w).entities@[i as int]
        }),
        i != j ==> final(w).entities@[i as int].pickup == old(w).entities@[i as int].pickup,
        final(w).entities@[i as int].receiver matches Option::Some(r2)
            && old(w).entities@[i as int].receiver matches Option::Some(r1) && r2 == (
        PickUpReceiver { entities_picked: r2.entities_picked, ..r1 }) && r2.entities_picked@
            == r1.entities_picked@.push(old(w).entities@[j as int].id),
{
    let ghost w1 = *w;
    let rid = w.entities[i].id;
    let idj = w.entities[j].id;
    mark_picked(w, j, rid);
    proof {
        assert forall|i2: int, k2: int|
            0 <= i2 < w.entities@.len() && 0 <= k2 < claimed_of(
                w.entities@[i2],
            ).len() implies #[trigger] claimed_of(w.entities@[i2])[k2] != idj by {
            if claimed_of(w.entities@[i2])[k2] == idj {
                assert(claimed_of(w1.entities@[i2]) == claimed_of(w.entities@[i2]));
                assert(w1.claim_ok(i2, claimed_of(w1.entities@[i2])[k2]));
                assert(w1.entities@[j as int].pickup == Option::Some(
                    PickUp::Picking(w1.entities@[i2].id),
                ));
            }
        }
        assert forall|j2: int|
            0 <= j2 < w.entities@.len() && (#[trigger] w.entities@[j2]).id == idj
                && w.entities@[j2].alive && w.entities@[j2].pickup is Some implies w.entities@[j2].pickup
            == Option::Some(PickUp::Picking(w.entities@[i as int].id)) by {
            lemma_unique_id(*w, j as int, j2);
        }
    }
    let mut single: Vec<u64> = Vec::new();
    single.push(idj);
    append_claims(w, i, single);
}

/// Whether `cid` is the id of a living idle item covered by the claim
/// disk of the firing receiver at index `i`: the only ids the claim
/// phase may add for that receiver.
pub open spec fn covered_idle_id(w0: World, dt: u64, i: int, cid: u64) -> bool {
    exists|j: int|
        claim_covers(w0, dt, i, j) && w0.entities@[j].pickup == Option::Some(PickUp::Idle)
            && w0.entities@[j].id == cid
}

/// Every entry of `s2` at position `n1` or later is a covered idle
/// item of receiver `i`: a claim phase appends nothing else.
pub open spec fn claims_idle_sourced(s2: Seq<u64>, n1: int, w0: World, dt: u64, i: int) -> bool {
    forall|k: int| n1 <= k < s2.len() ==> covered_idle_id(w0, dt, i, #[trigger] s2[k])
}

/// `cid` stands in the claimed list of the receiver entity with id `rid`.
pub open spec fn claim_recorded(w: World, rid: u64, cid: u64) -> bool {
    exists|i2: int, k2: int|
        0 <= i2 < w.entities@.len() && (#[trigger] w.entities@[i2]).id == rid && 0 <= k2
            < claimed_of(w.entities@[i2]).len() && #[trigger] claimed_of(w.entities@[i2])[k2]
            == cid
}

/// A picked item's claim is recorded: the receiver its state names
/// holds the item's id in its claimed list.
pub open spec fn picking_recorded(w: World, j: int) -> bool {
    match w.entities@[j].pickup {
        Option::Some(PickUp::Picking(rid)) => claim_recorded(w, rid, w.entities@[j].id),
        _ => true,
    }
}

/// Claim records persist while ids are stable and every claimed list
/// keeps its old content as a prefix.
pub proof fn lemma_claim_recorded_monotone(w1: World, w2: World, rid: u64, cid: u64)
    requires
        claim_recorded(w1, rid, cid),
        w2.entities@.len() == w1.entities@.len(),
        forall|i2: int|
            0 <= i2 < w1.entities@.len() ==> (#[trigger] w2.entities@[i2]).id
                == w1.entities@[i2].id && claimed_of(w2.entities@[i2]).len() >= claimed_of(
                w1.entities@[i2],
            ).len() && claimed_of(w2.entities@[i2]).take(
                claimed_of(w1.entities@[i2]).len() as int,
            ) == claimed_of(w1.entities@[i2]),
    ensures
        claim_recorded(w2, rid, cid),
{
    let (i2, k2) = choose|i2: int, k2: int|
        0 <= i2 < w1.entities@.len() && (#[trigger] w1.entities@[i2]).id == rid && 0 <= k2
            < claimed_of(w1.entities@[i2]).len() && #[trigger] claimed_of(w1.entities@[i2])[k2]
            == cid;
    assert(claimed_of(w2.entities@[i2]).take(claimed_of(w1.entities@[i2]).len() as int)[k2]
        == cid);
    assert(claimed_of(w2.entities@[i2])[k2] == cid);
}

/// `picking_recorded` persists under the same conditions, for a slot
/// whose claim state and id are untouched.
pub proof fn lemma_picking_recorded_monotone(w1: World, w2: World, j: int)
    requires
        0 <= j < w1.entities@.len(),
        picking_recorded(w1, j),
        w2.entities@.len() == w1.entities@.len(),
        w2.entities@[j].pickup == w1.entities@[j].pickup,
        w2.entities@[j].id == w1.entities@[j].id,
        forall|i2: int|
            0 <= i2 < w1.entities@.len() ==> (#[trigger] w2.entities@[i2]).id
                == w1.entities@[i2].id && claimed_of(w2.entities@[i2]).len() >= claimed_of(
                w1.entities@[i2],
            ).len() && claimed_of(w2.entities@[i2]).take(
                claimed_of(w1.entities@[i2]).len() as int,
            ) == claimed_of(w1.entities@[i2]),
    ensures
        picking_recorded(w2, j),
{
    match w1.entities@[j].pickup {
        Option::Some(PickUp::Picking(rid)) => {
            lemma_claim_recorded_monotone(w1, w2, rid, w1.entities@[j].id);
        },
        _ => {},
    }
}

/// The claim phase of the pickup coordinator. For every living
/// receiver whose claim timer completes this tick, every living idle
/// item inside its claim disk is claimed: the item switches to
/// `Picking` naming that receiver and its id joins the receiver's
/// claimed list. Claims are one way: a picked item never returns to
/// idle, and an item outside every firing receiver's disk stays idle.
/// When several receivers' disks cover one idle item, which of them
/// claims it is left open (the engine's query order decides).
pub fn detect_pickups(w: &mut World, dt: u64)
    requires
        old(w).wf(),
        dt <= DT_LIMIT,
    ensures
        final(w).wf(),
        final(w).entities@.len() == old(w).entities@.len(),
        final(w).next_id == old(w).next_id,
        final(w).queue == old(w).queue,
        final(w).state == old(w).state,
        final(w).currency == old(w).currency,
        forall|j: int|
            0 <= j < old(w).entities@.len() ==> non_claim_fields(#[trigger] final(w).entities@[j])
                == non_claim_fields(old(w).entities@[j]),
        forall|j: int|
            0 <= j < old(w).entities@.len() && !(#[trigger] old(w).entities@[j]).alive ==> final(w).entities@[j] == old(w).entities@[j],
        forall|j: int|
            0 <= j < old(w).entities@.len() && (#[trigger] old(w).entities@[j]).pickup is None
                ==> final(w).entities@[j].pickup is None,
        forall|j: int|
            0 <= j < old(w).entities@.len() && ((#[trigger] old(w).entities@[j]).pickup matches
            Option::Some(PickUp::Picking(_))) ==> final(w).entities@[j].pickup == old(w).entities@[j].pickup,
        forall|j: int|
            0 <= j < old(w).entities@.len() && (#[trigger] old(w).entities@[j]).pickup
                == Option::Some(PickUp::Idle) ==> (final(w).entities@[j].pickup == Option::Some(
                PickUp::Idle,
            ) || exists|i: int|
                claim_covers(*old(w), dt, i, j) && final(w).entities@[j].pickup == Option::Some(
                    PickUp::Picking((#[trigger] old(w).entities@[i]).id),
                )),
        forall|i: int, j: int|
            #![trigger claim_covers(*old(w), dt, i, j)]
            claim_covers(*old(w), dt, i, j) && old(w).entities@[j].pickup == Option::Some(
                PickUp::Idle,
            ) ==> final(w).entities@[j].pickup != Option::Some(PickUp::Idle),
        forall|i: int|
            0 <= i < old(w).entities@.len() && (#[trigger] old(w).entities@[i]).alive && old(w).entities@[i].receiver is Some ==> {
                let r1 = old(w).entities@[i].receiver.unwrap();
                &&& final(w).entities@[i].receiver matches Option::Some(r2) && r2 == (
                PickUpReceiver {
                    check_timer: timer_after(r1.check_timer, dt),
                    entities_picked: r2.entities_picked,
                    ..r1
                }) && r2.entities_picked@.take(r1.entities_picked@.len() as int)
                    == r1.entities_picked@ && (!timer_fires(r1.check_timer, dt)
                    ==> r2.entities_picked@ == r1.entities_picked@) && claims_idle_sourced(
                    r2.entities_picked@,
                    r1.entities_picked@.len() as int,
                    *old(w),
                    dt,
                    i,
                )
            },
        forall|i: int|
            0 <= i < old(w).entities@.len() && (#[trigger] old(w).entities@[i]).receiver is None
                ==> final(w).entities@[i].receiver is None,
        forall|j: int|
            0 <= j < old(w).entities@.len() && (#[trigger] old(w).entities@[j]).pickup
                == Option::Some(PickUp::Idle) ==> picking_recorded(*final(w), j),
{
    let ghost w0 = *w;
    let n = w.entities.len();
    let mut i: usize = 0;
    while i < n
        invariant
            w0 == *old(w),
            w0.wf(),
            w.wf(),
            dt <= DT_LIMIT,
            n == w0.entities@.len(),
            i <= n,
            w.entities@.len() == n,
            w.next_id == w0.next_id,
            w.queue == w0.queue,
            w.state == w0.state,
            w.currency == w0.currency,
            forall|j: int|
                0 <= j < n ==> non_claim_fields(#[trigger] w.entities@[j]) == non_claim_fields(
                    w0.entities@[j],
                ),
            forall|j: int|
                0 <= j < n && !(#[trigger] w0.entities@[j]).alive ==> w.entities@[j]
                    == w0.entities@[j],
            forall|j: int|
                0 <= j < n && (#[trigger] w0.entities@[j]).pickup is None ==> w.entities@[j].pickup is None,
            forall|j: int|
                0 <= j < n && ((#[trigger] w0.entities@[j]).pickup matches Option::Some(
                    PickUp::Picking(_),
                )) ==> w.entities@[j].pickup == w0.entities@[j].pickup,
            forall|j: int|
                0 <= j < n && (#[trigger] w0.entities@[j]).pickup == Option::Some(PickUp::Idle)
                    ==> (w.entities@[j].pickup == Option::Some(PickUp::Idle) || exists|i2: int|
                    i2 < i && claim_covers(w0, dt, i2, j) && w.entities@[j].pickup == Option::Some(
                        PickUp::Picking((#[trigger] w0.entities@[i2]).id),
                    )),
            forall|i2: int, j: int|
                #![trigger claim_covers(w0, dt, i2, j)]
                i2 < i && claim_covers(w0, dt, i2, j) && w0.entities@[j].pickup == Option::Some(
                    PickUp::Idle,
                ) ==> w.entities@[j].pickup != Option::Some(PickUp::Idle),
            forall|i2: int|
                0 <= i2 < i && (#[trigger] w0.entities@[i2]).alive && w0.entities@[i2].receiver is Some
                    ==> {
                    let r1 = w0.entities@[i2].receiver.unwrap();
                    &&& w.entities@[i2].receiver matches Option::Some(r2) && r2 == (PickUpReceiver {
                        check_timer: timer_after(r1.check_timer, dt),
                        entities_picked: r2.entities_picked,
                        ..r1
                    }) && r2.entities_picked@.take(r1.entities_picked@.len() as int)
                        == r1.entities_picked@ && (!timer_fires(r1.check_timer, dt)
                        ==> r2.entities_picked@ == r1.entities_picked@) && claims_idle_sourced(
                        r2.entities_picked@,
                        r1.entities_picked@.len() as int,
                        w0,
                        dt,
                        i2,
                    )
                },
            forall|i2: int|
                0 <= i2 < i && (#[trigger] w0.entities@[i2]).receiver is None
                    ==> w.entities@[i2].receiver is None,
            forall|i2: int|
                i <= i2 < n ==> (#[trigger] w.entities@[i2]).receiver == w0.entities@[i2].receiver,
            forall|j: int|
                0 <= j < n && (#[trigger] w0.entities@[j]).pickup == Option::Some(PickUp::Idle)
                    ==> picking_recorded(*w, j),
        decreases n - i,
    {
        let alive_i = w.entities[i].alive;
        let has_recv = w.entities[i].receiver.is_some();
        if alive_i && has_recv {
            let ghost r1 = w0.entities@[i as int].receiver.unwrap();
            let ghost w_t = *w;
            let fired = tick_receiver_timer(w, i, dt);
            proof {
                assert forall|i2: int| 0 <= i2 < n implies (#[trigger] w.entities@[i2]).id
                    == w_t.entities@[i2].id && claimed_of(w.entities@[i2]).len() >= claimed_of(
                    w_t.entities@[i2],
                ).len() && claimed_of(w.entities@[i2]).take(
                    claimed_of(w_t.entities@[i2]).len() as int,
                ) == claimed_of(w_t.entities@[i2]) by {
                    assert(claimed_of(w.entities@[i2]) == claimed_of(w_t.entities@[i2]));
                    assert(claimed_of(w.entities@[i2]).take(
                        claimed_of(w_t.entities@[i2]).len() as int,
                    ) =~= claimed_of(w_t.entities@[i2]));
                }
                assert forall|j2: int|
                    0 <= j2 < n && (#[trigger] w0.entities@[j2]).pickup == Option::Some(
                        PickUp::Idle,
                    ) implies picking_recorded(*w, j2) by {
                    assert(w.entities@[j2].pickup == w_t.entities@[j2].pickup);
                    lemma_picking_recorded_monotone(w_t, *w, j2);
                }
            }
            if fired {
                let rid = w.entities[i].id;
                let rpos = w.entities[i].pos;
                let chase = match &w.entities[i].receiver {
                    Option::Some(r) => r.chase_distance,
                    Option::None => 0,
                };
                proof {
                    assert(ent_wf(w0.entities@[i as int]));
                    assert(rid == w0.entities@[i as int].id);
                    assert(rpos == w0.entities@[i as int].pos);
                    assert(chase == r1.chase_distance);
                    crate::geom::lemma_square_bound(chase as int, COORD_LIMIT as int);
                }
                let mut j: usize = 0;
                while j < n
                    invariant
                        w0 == *old(w),
                        w0.wf(),
                        w.wf(),
                        dt <= DT_LIMIT,
                        n == w0.entities@.len(),
                        i < n,
                        j <= n,
                        w.entities@.len() == n,
                        w.next_id == w0.next_id,
                        w.queue == w0.queue,
                        w.state == w0.state,
                        w.currency == w0.currency,
                        w0.entities@[i as int].alive,
                        w0.entities@[i as int].receiver is Some,
                        r1 == w0.entities@[i as int].receiver.unwrap(),
                        timer_fires(r1.check_timer, dt),
                        rid == w0.entities@[i as int].id,
                        rpos == w0.entities@[i as int].pos,
                        chase == r1.chase_distance,
                        0 <= chase <= COORD_LIMIT,
                        w.entities@[i as int].receiver matches Option::Some(rc) && rc == (
                        PickUpReceiver {
                            check_timer: timer_after(r1.check_timer, dt),
                            entities_picked: rc.entities_picked,
                            ..r1
                        }) && rc.entities_picked@.take(r1.entities_picked@.len() as int)
                            == r1.entities_picked@ && rc.entities_picked@.len()
                            >= r1.entities_picked@.len() && claims_idle_sourced(
                            rc.entities_picked@,
                            r1.entities_picked@.len() as int,
                            w0,
                            dt,
                            i as int,
                        ),
                        forall|j2: int|
                            0 <= j2 < n ==> non_claim_fields(#[trigger] w.entities@[j2])
                                == non_claim_fields(w0.entities@[j2]),
                        forall|j2: int|
                            0 <= j2 < n && !(#[trigger] w0.entities@[j2]).alive
                                ==> w.entities@[j2] == w0.entities@[j2],
                        forall|j2: int|
                            0 <= j2 < n && (#[trigger] w0.entities@[j2]).pickup is None
                                ==> w.entities@[j2].pickup is None,
                        forall|j2: int|
                            0 <= j2 < n && ((#[trigger] w0.entities@[j2]).pickup matches
                            Option::Some(PickUp::Picking(_))) ==> w.entities@[j2].pickup
                                == w0.entities@[j2].pickup,
                        forall|j2: int|
                            0 <= j2 < n && (#[trigger] w0.entities@[j2]).pickup == Option::Some(
                                PickUp::Idle,
                            ) ==> (w.entities@[j2].pickup == Option::Some(PickUp::Idle) || exists|
                                i2: int,
                            |
                                i2 <= i && claim_covers(w0, dt, i2, j2) && w.entities@[j2].pickup
                                    == Option::Some(
                                    PickUp::Picking((#[trigger] w0.entities@[i2]).id),
                                )),
                        forall|i2: int, j2: int|
                            #![trigger claim_covers(w0, dt, i2, j2)]
                            (i2 < i || (i2 == i && j2 < j)) && claim_covers(w0, dt, i2, j2)
                                && w0.entities@[j2].pickup == Option::Some(PickUp::Idle)
                                ==> w.entities@[j2].pickup != Option::Some(PickUp::Idle),
                        forall|i2: int|
                            0 <= i2 < i && (#[trigger] w0.entities@[i2]).alive
                                && w0.entities@[i2].receiver is Some ==> {
                                let p1 = w0.entities@[i2].receiver.unwrap();
                                &&& w.entities@[i2].receiver matches Option::Some(p2) && p2 == (
                                PickUpReceiver {
                                    check_timer: timer_after(p1.check_timer, dt),
                                    entities_picked: p2.entities_picked,
                                    ..p1
                                }) && p2.entities_picked@.take(p1.entities_picked@.len() as int)
                                    == p1.entities_picked@ && (!timer_fires(p1.check_timer, dt)
                                    ==> p2.entities_picked@ == p1.entities_picked@)
                                    && claims_idle_sourced(
                                    p2.entities_picked@,
                                    p1.entities_picked@.len() as int,
                                    w0,
                                    dt,
                                    i2,
                                )
                            },
                        forall|i2: int|
                            0 <= i2 < i && (#[trigger] w0.entities@[i2]).receiver is None
                                ==> w.entities@[i2].receiver is None,
                        forall|i2: int|
                            i < i2 < n ==> (#[trigger] w.entities@[i2]).receiver
                                == w0.entities@[i2].receiver,
                        forall|j2: int|
                            0 <= j2 < n && (#[trigger] w0.entities@[j2]).pickup == Option::Some(
                                PickUp::Idle,
                            ) ==> picking_recorded(*w, j2),
                    decreases n - j,
                {
                    let cand_alive = w.entities[j].alive;
                    let cand_idle = match w.entities[j].pickup {
                        Option::Some(PickUp::Idle) => true,
                        _ => false,
                    };
                    if cand_alive && cand_idle {
                        proof {
                            assert(ent_wf(w.entities@[j as int]));
                            assert(non_claim_fields(w.entities@[j as int]) == non_claim_fields(
                                w0.entities@[j as int],
                            ));
                            assert(w0.entities@[j as int].pickup == Option::Some(PickUp::Idle));
                        }
                        let d2 = dist_squared(rpos, w.entities[j].pos);
                        proof {
                            crate::geom::lemma_square_bound(chase as int, COORD_LIMIT as int);
                        }
                        if d2 <= chase as i128 * chase as i128 {
                            proof {
                                assert(claim_covers(w0, dt, i as int, j as int));
                            }
                            let ghost w_b = *w;
                            claim_one(w, i, j);
                            proof {
                                let ii = i as int;
                                let jj = j as int;
                                let rc2 = w.entities@[ii].receiver.unwrap();
                                let s_b = w_b.entities@[ii].receiver.unwrap().entities_picked@;
                                let n1 = r1.entities_picked@.len() as int;
                                assert(s_b.take(n1) == r1.entities_picked@);
                                assert(s_b.len() >= n1);
                                assert(rc2.entities_picked@ == s_b.push(w_b.entities@[jj].id));
                                assert forall|k: int| 0 <= k < n1 implies rc2.entities_picked@.take(
                                    n1,
                                )[k] == s_b.take(n1)[k] by {
                                    assert(rc2.entities_picked@[k] == s_b[k]);
                                }
                                assert(rc2.entities_picked@.take(n1) =~= s_b.take(n1));
                                assert(non_claim_fields(w.entities@[jj]) == non_claim_fields(
                                    w_b.entities@[jj],
                                ));
                                assert(non_claim_fields(w.entities@[ii]) == non_claim_fields(
                                    w_b.entities@[ii],
                                ));
                                assert forall|k: int|
                                    n1 <= k < rc2.entities_picked@.len() implies covered_idle_id(
                                    w0,
                                    dt,
                                    ii,
                                    #[trigger] rc2.entities_picked@[k],
                                ) by {
                                    if k < s_b.len() {
                                        assert(rc2.entities_picked@[k] == s_b[k]);
                                        assert(claims_idle_sourced(s_b, n1, w0, dt, ii));
                                        assert(covered_idle_id(w0, dt, ii, s_b[k]));
                                    } else {
                                        assert(rc2.entities_picked@[k] == w_b.entities@[jj].id);
                                        assert(w_b.entities@[jj].id == w0.entities@[jj].id);
                                        assert(claim_covers(w0, dt, ii, jj));
                                        assert(covered_idle_id(
                                            w0,
                                            dt,
                                            ii,
                                            w0.entities@[jj].id,
                                        ));
                                    }
                                }
                                assert(claims_idle_sourced(rc2.entities_picked@, n1, w0, dt, ii));
                                assert forall|i2: int| 0 <= i2 < n implies (
                                #[trigger] w.entities@[i2]).id == w_b.entities@[i2].id
                                    && claimed_of(w.entities@[i2]).len() >= claimed_of(
                                    w_b.entities@[i2],
                                ).len() && claimed_of(w.entities@[i2]).take(
                                    claimed_of(w_b.entities@[i2]).len() as int,
                                ) == claimed_of(w_b.entities@[i2]) by {
                                    if i2 == ii {
                                        assert(claimed_of(w.entities@[ii]) == s_b.push(
                                            w_b.entities@[jj].id,
                                        ));
                                        assert(claimed_of(w.entities@[ii]).take(s_b.len() as int)
                                            =~= s_b);
                                    } else {
                                        if i2 == jj {
                                            assert(w.entities@[jj].receiver
                                                == w_b.entities@[jj].receiver);
                                        } else {
                                            assert(w.entities@[i2] == w_b.entities@[i2]);
                                        }
                                        assert(claimed_of(w.entities@[i2]) == claimed_of(
                                            w_b.entities@[i2],
                                        ));
                                        assert(claimed_of(w.entities@[i2]).take(
                                            claimed_of(w_b.entities@[i2]).len() as int,
                                        ) =~= claimed_of(w_b.entities@[i2]));
                                    }
                                }
                                assert forall|j2: int|
                                    0 <= j2 < n && (#[trigger] w0.entities@[j2]).pickup
                                        == Option::Some(PickUp::Idle) implies picking_recorded(
                                    *w,
                                    j2,
                                ) by {
                                    if j2 == jj {
                                        assert(w.entities@[jj].pickup == Option::Some(
                                            PickUp::Picking(rid),
                                        ));
                                        assert(w.entities@[ii].id == rid);
                                        assert(claimed_of(w.entities@[ii])[
                                            rc2.entities_picked@.len() - 1
                                        ] == w.entities@[jj].id);
                                        assert(claim_recorded(*w, rid, w.entities@[jj].id));
                                    } else {
                                        assert(w.entities@[j2].pickup
                                            == w_b.entities@[j2].pickup);
                                        lemma_picking_recorded_monotone(w_b, *w, j2);
                                    }
                                }
                            }
                        }
                    }
                    j = j + 1;
                }
            }
        }
        i = i + 1;
    }
}

/// `e` with its attraction-phase state erased: what the attraction
/// phase leaves untouched (everything but position and claimed list).
pub open spec fn non_attract_fields(e: Entity) -> Entity {
    Entity { pos: Vec2 { x: 0, y: 0 }, receiver: Option::None, ..e }
}

/// The length of one attraction step: the receiver's pull speed over
/// the frame delta, in fixed-point units.
pub open spec fn attract_step(r: PickUpReceiver, dt: u64) -> int {
    (r.pick_speed * dt) / 1000
}

/// Where an item at `p` ends up after one attraction step toward a
/// receiver at `rp`.
pub open spec fn attract_moved(p: Vec2, rp: Vec2, r: PickUpReceiver, dt: u64) -> Vec2 {
    Vec2 {
        x: crate::geom::move_toward_x(p, rp, attract_step(r, dt)) as i64,
        y: crate::geom::move_toward_y(p, rp, attract_step(r, dt)) as i64,
    }
}

/// Whether the item reaches the receiver's consumption radius after
/// this tick's attraction step.
pub open spec fn attract_consumed(p: Vec2, rp: Vec2, r: PickUpReceiver, dt: u64) -> bool {
    dist2(rp, attract_moved(p, rp, r, dt)) <= r.pick_distance * r.pick_distance
}

/// The despawn requests the attraction phase queues, one per
/// collected item, in collection order.
pub open spec fn despawns_of(evs: Seq<OnPickedUp>) -> Seq<crate::world::Command> {
    Seq::new(evs.len(), |e: int| crate::world::Command::Despawn(evs[e].item_entity))
}

/// Whether the receiver entity at index `i` is itself claimed by no
/// receiver (the ordinary case: collectors are not collectibles).
#[verifier::opaque]
pub open spec fn receiver_unclaimed(w: World, i: int) -> bool {
    forall|i2: int, k2: int|
        0 <= i2 < w.entities@.len() && 0 <= k2 < claimed_of(w.entities@[i2]).len()
            ==> #[trigger] claimed_of(w.entities@[i2])[k2] != w.entities@[i].id
}

/// Whether the claim entry `cid` of the receiver at index `i` is
/// collected this phase: it names a living item with a pickup whose
/// clipped step toward the receiver lands within the consumption
/// radius.
pub open spec fn entry_consumed(w0: World, dt: u64, i: int, cid: u64) -> bool {
    exists|j: int|
        0 <= j < w0.entities@.len() && (#[trigger] w0.entities@[j]).id == cid
            && w0.entities@[j].alive && w0.entities@[j].pickup is Some && attract_consumed(
            w0.entities@[j].pos,
            w0.entities@[i].pos,
            w0.entities@[i].receiver.unwrap(),
            dt,
        )
}

/// The claimed list the attraction phase leaves behind for the
/// receiver at index `i`: the old entries in order, less the
/// collected ones. A stale id or an item still out of reach stays.
pub open spec fn attract_kept(s: Seq<u64>, w0: World, dt: u64, i: int) -> Seq<u64>
    decreases s.len(),
{
    if s.len() == 0 {
        Seq::empty()
    } else {
        attract_kept(s.drop_last(), w0, dt, i) + (if entry_consumed(w0, dt, i, s.last()) {
            Seq::empty()
        } else {
            seq![s.last()]
        })
    }
}

/// What the attraction phase does to the living item `j` claimed by
/// the receiver at index `i`: the item ends one clipped step toward
/// the receiver at `p`, and if that lands within the consumption
/// radius, a picked-up notification for it stands among the events.
#[verifier::opaque]
pub open spec fn attract_effect(
    w0: World,
    dt: u64,
    i: int,
    j: int,
    p: Vec2,
    evs: Seq<OnPickedUp>,
) -> bool {
    let rp = w0.entities@[i].pos;
    let r = w0.entities@[i].receiver.unwrap();
    let q = w0.entities@[j].pos;
    &&& p == attract_moved(q, rp, r, dt)
    &&& (attract_consumed(q, rp, r, dt) ==> exists|e: int|
        0 <= e < evs.len() && evs[e] == (OnPickedUp {
            receiver_entity: w0.entities@[i].id,
            item_entity: w0.entities@[j].id,
        }))
}

/// The movement obligation of one claim entry: whatever living item
/// with a pickup the entry `k` of receiver `i` names is attracted as
/// `attract_effect` states.
#[verifier::opaque]
pub open spec fn entry_attracted(
    w0: World,
    dt: u64,
    i: int,
    k: int,
    ents: Seq<Entity>,
    evs: Seq<OnPickedUp>,
) -> bool {
    forall|j: int|
        0 <= j < w0.entities@.len() && (#[trigger] w0.entities@[j]).id == claimed_of(
            w0.entities@[i],
        )[k] && w0.entities@[j].alive && w0.entities@[j].pickup is Some ==> attract_effect(
            w0,
            dt,
            i,
            j,
            ents[j].pos,
            evs,
        )
}

/// `entry_attracted` persists while the item positions stay put and
/// the event list only grows.
pub proof fn lemma_entry_attracted_extend(
    w0: World,
    dt: u64,
    i: int,
    k: int,
    jx: int,
    e1: Seq<Entity>,
    e2: Seq<Entity>,
    v1: Seq<OnPickedUp>,
    v2: Seq<OnPickedUp>,
)
    requires
        entry_attracted(w0, dt, i, k, e1, v1),
        e2.len() == e1.len(),
        e1.len() == w0.entities@.len(),
        forall|j: int| 0 <= j < e1.len() && j != jx ==> (#[trigger] e2[j]).pos == e1[j].pos,
        0 <= jx < e1.len() ==> w0.entities@[jx].id != claimed_of(w0.entities@[i])[k],
        v2.len() >= v1.len(),
        forall|e: int| 0 <= e < v1.len() ==> #[trigger] v2[e] == v1[e],
    ensures
        entry_attracted(w0, dt, i, k, e2, v2),
{
    reveal(entry_attracted);
    reveal(attract_effect);
    assert forall|j: int|
        0 <= j < w0.entities@.len() && (#[trigger] w0.entities@[j]).id == claimed_of(
            w0.entities@[i],
        )[k] && w0.entities@[j].alive && w0.entities@[j].pickup is Some implies attract_effect(
        w0,
        dt,
        i,
        j,
        e2[j].pos,
        v2,
    ) by {
        assert(attract_effect(w0, dt, i, j, e1[j].pos, v1));
        assert(j != jx);
        assert(e2[j].pos == e1[j].pos);
        let rp = w0.entities@[i].pos;
        let r = w0.entities@[i].receiver.unwrap();
        let q = w0.entities@[j].pos;
        if attract_consumed(q, rp, r, dt) {
            let e = choose|e: int|
                0 <= e < v1.len() && v1[e] == (OnPickedUp {
                    receiver_entity: w0.entities@[i].id,
                    item_entity: w0.entities@[j].id,
                });
            assert(v2[e] == v1[e]);
        }
    }
}

/// A picked-up notification is justified: the item stood in the
/// claimed list of the living receiver it names, and — when that
/// receiver is not itself a claimed item — the entry really was
/// collected this phase.
#[verifier::opaque]
pub open spec fn event_justified(ev: OnPickedUp, w0: World, dt: u64) -> bool {
    exists|i: int, k: int|
        0 <= i < w0.entities@.len() && (#[trigger] w0.entities@[i]).alive
            && w0.entities@[i].receiver is Some && 0 <= k < claimed_of(w0.entities@[i]).len()
            && #[trigger] claimed_of(w0.entities@[i])[k] == ev.item_entity && w0.entities@[i].id
            == ev.receiver_entity && (receiver_unclaimed(w0, i) ==> entry_consumed(
            w0,
            dt,
            i,
            ev.item_entity,
        ))
}

/// The currency counter after one credit, saturating at its ceiling.
pub open spec fn sat_add_u32(c: int, v: int) -> int {
    if c + v <= u32::MAX {
        c + v
    } else {
        u32::MAX as int
    }
}

/// The money value a picked-up notification credits: the value of the
/// living money item with that id, zero when there is none.
pub open spec fn money_value_at(w: World, id: u64) -> int {
    if exists|j: int|
        0 <= j < w.entities@.len() && (#[trigger] w.entities@[j]).id == id && w.entities@[j].alive
            && w.entities@[j].money is Some {
        let j = choose|j: int|
            0 <= j < w.entities@.len() && (#[trigger] w.entities@[j]).id == id
                && w.entities@[j].alive && w.entities@[j].money is Some;
        w.entities@[j].money.unwrap().0 as int
    } else {
        0
    }
}

/// The currency after every notification in `evs` credited its item's
/// money value, in order, saturating.
pub open spec fn credited(c: int, w: World, evs: Seq<OnPickedUp>) -> int
    decreases evs.len(),
{
    if evs.len() == 0 {
        c
    } else {
        sat_add_u32(credited(c, w, evs.drop_last()), money_value_at(w, evs.last().item_entity))
    }
}

/// `money_value_at` reads only ids, liveness and money values.
pub proof fn lemma_money_value_same(w1: World, w2: World, id: u64)
    requires
        w1.wf(),
        w2.entities@.len() == w1.entities@.len(),
        forall|j: int|
            0 <= j < w1.entities@.len() ==> (#[trigger] w2.entities@[j]).id == w1.entities@[j].id
                && w2.entities@[j].alive == w1.entities@[j].alive && w2.entities@[j].money
                == w1.entities@[j].money,
    ensures
        money_value_at(w2, id) == money_value_at(w1, id),
{
    if exists|j: int|
        0 <= j < w1.entities@.len() && (#[trigger] w1.entities@[j]).id == id
            && w1.entities@[j].alive && w1.entities@[j].money is Some {
        let j1 = choose|j: int|
            0 <= j < w1.entities@.len() && (#[trigger] w1.entities@[j]).id == id
                && w1.entities@[j].alive && w1.entities@[j].money is Some;
        assert(w2.entities@[j1].id == id && w2.entities@[j1].alive
            && w2.entities@[j1].money is Some);
        let j2 = choose|j: int|
            0 <= j < w2.entities@.len() && (#[trigger] w2.entities@[j]).id == id
                && w2.entities@[j].alive && w2.entities@[j].money is Some;
        assert(w1.entities@[j2].id == id);
        lemma_unique_id(w1, j1, j2);
        assert(money_value_at(w2, id) == w2.entities@[j2].money.unwrap().0 as int);
        assert(money_value_at(w1, id) == w1.entities@[j1].money.unwrap().0 as int);
    } else {
        if exists|j: int|
            0 <= j < w2.entities@.len() && (#[trigger] w2.entities@[j]).id == id
                && w2.entities@[j].alive && w2.entities@[j].money is Some {
            let j2 = choose|j: int|
                0 <= j < w2.entities@.len() && (#[trigger] w2.entities@[j]).id == id
                    && w2.entities@[j].alive && w2.entities@[j].money is Some;
            assert(w1.entities@[j2].id == id && w1.entities@[j2].alive
                && w1.entities@[j2].money is Some);
            assert(false);
        }
    }
}

/// Every element of `s2` occurs somewhere in `s1`.
pub open spec fn list_subset_of(s2: Seq<u64>, s1: Seq<u64>) -> bool {
    forall|k2: int| 0 <= k2 < s2.len() ==> s1.contains(#[trigger] s2[k2])
}

pub open spec fn receiver_kept_subset(w: World, w0: World, i2: int) -> bool {
    let r1 = w0.entities@[i2].receiver.unwrap();
    let r2 = w.entities@[i2].receiver.unwrap();
    &&& w.entities@[i2].receiver is Some
    &&& r2 == (PickUpReceiver { entities_picked: r2.entities_picked, ..r1 })
    &&& list_subset_of(r2.entities_picked@, r1.entities_picked@)
}

/// `receiver_kept_subset` depends only on the slot's receiver.
pub proof fn lemma_receiver_kept_subset_same(wa: World, wb: World, w0: World, i2: int)
    requires
        receiver_kept_subset(wa, w0, i2),
        wb.entities@[i2].receiver == wa.entities@[i2].receiver,
    ensures
        receiver_kept_subset(wb, w0, i2),
{
    assert(wb.entities@[i2].receiver.unwrap() == wa.entities@[i2].receiver.unwrap());
}

/// A picked-up notification is sourced: the item stood in the claimed
/// list of the receiver it names, at the start of the phase.
pub open spec fn event_sourced(ev: OnPickedUp, w0: World) -> bool {
    exists|i: int, k: int|
        0 <= i < w0.entities@.len() && 0 <= k < claimed_of(w0.entities@[i]).len() && claimed_of(
            w0.entities@[i],
        )[k] == ev.item_entity && w0.entities@[i].id == ev.receiver_entity
}

/// The attraction phase of the pickup coordinator, run every tick.
/// Every claimed item is pulled one step toward its receiver, clipped
/// so it cannot overshoot; an item whose distance to its receiver
/// falls within the consumption radius is collected: it leaves the
/// claimed list, a picked-up notification fires (crediting any money
/// value to the match currency) and its removal is queued. Each
/// collected entity is notified exactly once, and a stale claimed id
/// stays in the list untouched.
#[verifier::rlimit(100)]
pub fn attract_pickups(w: &mut World, dt: u64) -> (events: Vec<OnPickedUp>)
    requires
        old(w).wf(),
        dt <= DT_LIMIT,
    ensures
        final(w).wf(),
        final(w).entities@.len() == old(w).entities@.len(),
        final(w).next_id == old(w).next_id,
        final(w).state == old(w).state,
        final(w).currency.0 >= old(w).currency.0,
        final(w).currency.0 == credited(old(w).currency.0 as int, *old(w), events@),
        final(w).queue.items@ == old(w).queue.items@ + despawns_of(events@),
        forall|j: int|
            0 <= j < old(w).entities@.len() ==> non_attract_fields(#[trigger] final(w).entities@[j])
                == non_attract_fields(old(w).entities@[j]),
        forall|j: int|
            0 <= j < old(w).entities@.len() && !(#[trigger] old(w).entities@[j]).alive ==> final(w).entities@[j] == old(w).entities@[j],
        forall|e1: int, e2: int|
            0 <= e1 < e2 < events@.len() ==> (#[trigger] events@[e1]).item_entity != (
            #[trigger] events@[e2]).item_entity,
        forall|e: int|
            0 <= e < events@.len() ==> event_justified(#[trigger] events@[e], *old(w), dt),
        forall|i: int|
            0 <= i < old(w).entities@.len() && (#[trigger] old(w).entities@[i]).alive && old(w).entities@[i].receiver is Some ==> receiver_kept_subset(*final(w), *old(w), i) && (
            receiver_unclaimed(*old(w), i) ==> claimed_of(final(w).entities@[i]) == attract_kept(
                claimed_of(old(w).entities@[i]),
                *old(w),
                dt,
                i,
            )),
        forall|i: int, k: int|
            #![trigger entry_attracted(*old(w), dt, i, k, final(w).entities@, events@)]
            0 <= i < old(w).entities@.len() && old(w).entities@[i].alive && old(w).entities@[i].receiver is Some && receiver_unclaimed(*old(w), i) && 0 <= k < claimed_of(
                old(w).entities@[i],
            ).len() ==> entry_attracted(*old(w), dt, i, k, final(w).entities@, events@),
        forall|i: int|
            0 <= i < old(w).entities@.len() && (#[trigger] old(w).entities@[i]).receiver is None
                ==> final(w).entities@[i].receiver is None,
        forall|j: int|
            0 <= j < old(w).entities@.len() && (forall|i2: int, k2: int|
                0 <= i2 < old(w).entities@.len() && 0 <= k2 < claimed_of(
                    old(w).entities@[i2],
                ).len() ==> #[trigger] claimed_of(old(w).entities@[i2])[k2] != (
                #[trigger] old(w).entities@[j]).id) ==> final(w).entities@[j].pos == old(w).entities@[j].pos,
{
    let ghost w0 = *w;
    let mut events: Vec<OnPickedUp> = Vec::new();
    let ghost mut srcs: Seq<(int, int)> = Seq::empty();
    let n = w.entities.len();
    let mut i: usize = 0;
    while i < n
        invariant
            w0 == *old(w),
            w0.wf(),
            w.wf(),
            dt <= DT_LIMIT,
            n == w0.entities@.len(),
            i <= n,
            w.entities@.len() == n,
            w.next_id == w0.next_id,
            w.state == w0.state,
            w.currency.0 >= w0.currency.0,
            w.currency.0 == credited(w0.currency.0 as int, w0, events@),
            w.queue.items@ == w0.queue.items@ + despawns_of(events@),
            forall|j: int|
                0 <= j < n ==> non_attract_fields(#[trigger] w.entities@[j]) == non_attract_fields(
                    w0.entities@[j],
                ),
            forall|j: int|
                0 <= j < n && !(#[trigger] w0.entities@[j]).alive ==> w.entities@[j]
                    == w0.entities@[j],
            srcs.len() == events@.len(),
            forall|e: int|
                0 <= e < events@.len() ==> {
                    let (si, sk) = #[trigger] srcs[e];
                    &&& 0 <= si < i as int
                    &&& 0 <= sk < claimed_of(w0.entities@[si]).len()
                    &&& claimed_of(w0.entities@[si])[sk] == events@[e].item_entity
                    &&& w0.entities@[si].id == events@[e].receiver_entity
                },
            forall|e1: int, e2: int|
                0 <= e1 < e2 < srcs.len() ==> ((#[trigger] srcs[e1]).0 < (#[trigger] srcs[e2]).0
                    || (srcs[e1].0 == srcs[e2].0 && srcs[e1].1 < srcs[e2].1)),
            forall|e: int|
                0 <= e < events@.len() ==> event_justified(#[trigger] events@[e], w0, dt),
            forall|e1: int, e2: int|
                0 <= e1 < e2 < events@.len() ==> (#[trigger] events@[e1]).item_entity != (
                #[trigger] events@[e2]).item_entity,
            forall|i2: int|
                0 <= i2 < i && (#[trigger] w0.entities@[i2]).alive && w0.entities@[i2].receiver is Some
                    ==> receiver_kept_subset(*w, w0, i2) && (receiver_unclaimed(w0, i2)
                    ==> claimed_of(w.entities@[i2]) == attract_kept(
                    claimed_of(w0.entities@[i2]),
                    w0,
                    dt,
                    i2,
                )),
            forall|i2: int, k2: int|
                #![trigger entry_attracted(w0, dt, i2, k2, w.entities@, events@)]
                0 <= i2 < i && w0.entities@[i2].alive && w0.entities@[i2].receiver is Some
                    && receiver_unclaimed(w0, i2) && 0 <= k2 < claimed_of(
                    w0.entities@[i2],
                ).len() ==> entry_attracted(w0, dt, i2, k2, w.entities@, events@),
            forall|i2: int|
                0 <= i2 < i && (#[trigger] w0.entities@[i2]).receiver is None
                    ==> w.entities@[i2].receiver is None,
            forall|i2: int|
                i <= i2 < n ==> (#[trigger] w.entities@[i2]).receiver == w0.entities@[i2].receiver,
            forall|j: int|
                0 <= j < n && (forall|i2: int, k2: int|
                    0 <= i2 < i && 0 <= k2 < claimed_of(w0.entities@[i2]).len()
                        ==> #[trigger] claimed_of(w0.entities@[i2])[k2] != (
                    #[trigger] w0.entities@[j]).id) ==> w.entities@[j].pos == w0.entities@[j].pos,
        decreases n - i,
    {
        let alive_i = w.entities[i].alive;
        let has_recv = w.entities[i].receiver.is_some();
        if alive_i && has_recv {
            let ghost r1 = w0.entities@[i as int].receiver.unwrap();
            let rid = w.entities[i].id;
            let rpos = w.entities[i].pos;
            let pick_distance = match &w.entities[i].receiver {
                Option::Some(r) => r.pick_distance,
                Option::None => 0,
            };
            let pick_speed = match &w.entities[i].receiver {
                Option::Some(r) => r.pick_speed,
                Option::None => 0,
            };
            proof {
                assert(ent_wf(w0.entities@[i as int]));
                assert(rid == w0.entities@[i as int].id);
                assert(pick_distance == r1.pick_distance);
                assert(pick_speed == r1.pick_speed);
            }
            proof {
                crate::geom::lemma_mul_le(
                    pick_speed as int,
                    SPEED_LIMIT as int,
                    dt as int,
                    DT_LIMIT as int,
                );
            }
            let step: i64 = (pick_speed as u128 * dt as u128 / 1000) as i64;
            proof {
                assert((pick_speed as int * dt as int) / 1000 <= 600_000_000_000);
            }
            let ghost w_pre = *w;
            let mut taken: Option<PickUpReceiver> = Option::None;
            core::mem::swap(&mut taken, &mut w.entities[i].receiver);
            proof {
                assert forall|i2: int|
                    0 <= i2 < i && (#[trigger] w0.entities@[i2]).alive
                        && w0.entities@[i2].receiver is Some implies receiver_kept_subset(
                    *w,
                    w0,
                    i2,
                ) by {
                    assert(w.entities@[i2] == w_pre.entities@[i2]);
                    lemma_receiver_kept_subset_same(w_pre, *w, w0, i2);
                }
            }
            match taken {
                Option::Some(mut r) => {
                    let mut kept: Vec<u64> = Vec::new();
                    let ghost mut kept_src: Seq<int> = Seq::empty();
                    let m = r.entities_picked.len();
                    proof {
                        reveal(receiver_unclaimed);
                        let ii = i as int;
                        assert forall|j2: int| 0 <= j2 < n implies (
                        #[trigger] w.entities@[j2]).pos == w_pre.entities@[j2].pos by {
                            if j2 != ii {
                                assert(w.entities@[j2] == w_pre.entities@[j2]);
                            }
                        }
                        if receiver_unclaimed(w0, ii) {
                            assert forall|i2: int, k2: int|
                                0 <= i2 < i && 0 <= k2 < claimed_of(
                                    w0.entities@[i2],
                                ).len() implies #[trigger] claimed_of(w0.entities@[i2])[k2]
                                != w0.entities@[ii].id by {}
                            assert(w_pre.entities@[ii].pos == w0.entities@[ii].pos);
                            assert(rpos == w0.entities@[ii].pos);
                        }
                        assert(r1.entities_picked@.take(0) =~= Seq::<u64>::empty());
                        assert(attract_kept(r1.entities_picked@.take(0), w0, dt, ii)
                            =~= Seq::<u64>::empty());
                        assert forall|i2: int, k2: int|
                            #![trigger entry_attracted(w0, dt, i2, k2, w.entities@, events@)]
                            i2 < i && 0 <= i2 < n && w0.entities@[i2].alive
                                && w0.entities@[i2].receiver is Some && receiver_unclaimed(
                                w0,
                                i2,
                            ) && 0 <= k2 < claimed_of(
                                w0.entities@[i2],
                            ).len() implies entry_attracted(
                            w0,
                            dt,
                            i2,
                            k2,
                            w.entities@,
                            events@,
                        ) by {
                            let cidt = claimed_of(w0.entities@[i2])[k2];
                            assert(entry_attracted(w0, dt, i2, k2, w_pre.entities@, events@));
                            lemma_entry_attracted_extend(
                                w0,
                                dt,
                                i2,
                                k2,
                                -1,
                                w_pre.entities@,
                                w.entities@,
                                events@,
                                events@,
                            );
                        }
                    }
                    let mut k: usize = 0;
                    while k < m
                        invariant
                            w0 == *old(w),
                            w0.wf(),
                            w.wf(),
                            dt <= DT_LIMIT,
                            n == w0.entities@.len(),
                            i < n,
                            k <= m,
                            w.entities@.len() == n,
                            w.next_id == w0.next_id,
                            w.state == w0.state,
                            w.currency.0 >= w0.currency.0,
                            w.currency.0 == credited(w0.currency.0 as int, w0, events@),
                            w.queue.items@ == w0.queue.items@ + despawns_of(events@),
                            w0.entities@[i as int].alive,
                            w0.entities@[i as int].receiver is Some,
                            r1 == w0.entities@[i as int].receiver.unwrap(),
                            r == (PickUpReceiver { entities_picked: r.entities_picked, ..r1 }),
                            r.entities_picked@ == r1.entities_picked@,
                            m == r.entities_picked@.len(),
                            rid == w0.entities@[i as int].id,
                            rid == w.entities@[i as int].id,
                            rpos == w.entities@[i as int].pos,
                            pick_distance == r1.pick_distance,
                            0 <= pick_distance <= COORD_LIMIT,
                            0 <= step <= COORD_LIMIT,
                            step as int == attract_step(r1, dt),
                            w.entities@[i as int].receiver is None,
                            receiver_unclaimed(w0, i as int) ==> rpos == w0.entities@[
                                i as int
                            ].pos,
                            receiver_unclaimed(w0, i as int) ==> kept@ == attract_kept(
                                r1.entities_picked@.take(k as int),
                                w0,
                                dt,
                                i as int,
                            ),
                            forall|j: int|
                                0 <= j < n ==> non_attract_fields(#[trigger] w.entities@[j])
                                    == non_attract_fields(w0.entities@[j]),
                            forall|j: int|
                                0 <= j < n && !(#[trigger] w0.entities@[j]).alive
                                    ==> w.entities@[j] == w0.entities@[j],
                            srcs.len() == events@.len(),
                            forall|e: int|
                                0 <= e < events@.len() ==> {
                                    let (si, sk) = #[trigger] srcs[e];
                                    &&& 0 <= si <= i as int
                                    &&& (si == i as int ==> sk < k)
                                    &&& 0 <= sk < claimed_of(w0.entities@[si]).len()
                                    &&& claimed_of(w0.entities@[si])[sk]
                                        == events@[e].item_entity
                                    &&& w0.entities@[si].id == events@[e].receiver_entity
                                },
                            forall|e1: int, e2: int|
                                0 <= e1 < e2 < srcs.len() ==> ((#[trigger] srcs[e1]).0 < (
                                #[trigger] srcs[e2]).0 || (srcs[e1].0 == srcs[e2].0 && srcs[e1].1
                                    < srcs[e2].1)),
                            forall|e: int|
                                0 <= e < events@.len() ==> event_justified(
                                    #[trigger] events@[e],
                                    w0,
                                    dt,
                                ),
                            forall|e1: int, e2: int|
                                0 <= e1 < e2 < events@.len() ==> (
                                #[trigger] events@[e1]).item_entity != (
                                #[trigger] events@[e2]).item_entity,
                            kept_src.len() == kept@.len(),
                            forall|k2: int|
                                0 <= k2 < kept@.len() ==> 0 <= #[trigger] kept_src[k2] < k
                                    && r1.entities_picked@[kept_src[k2]] == kept@[k2],
                            forall|k1: int, k2: int|
                                0 <= k1 < k2 < kept_src.len() ==> #[trigger] kept_src[k1]
                                    < #[trigger] kept_src[k2],
                            forall|i2: int|
                                0 <= i2 < i && (#[trigger] w0.entities@[i2]).alive
                                    && w0.entities@[i2].receiver is Some
                                    ==> receiver_kept_subset(*w, w0, i2) && (receiver_unclaimed(
                                    w0,
                                    i2,
                                ) ==> claimed_of(w.entities@[i2]) == attract_kept(
                                    claimed_of(w0.entities@[i2]),
                                    w0,
                                    dt,
                                    i2,
                                )),
                            forall|i2: int, k2: int|
                                #![trigger entry_attracted(w0, dt, i2, k2, w.entities@, events@)]
                                (i2 < i || (i2 == i && k2 < k)) && 0 <= i2 < n
                                    && w0.entities@[i2].alive
                                    && w0.entities@[i2].receiver is Some && receiver_unclaimed(
                                    w0,
                                    i2,
                                ) && 0 <= k2 < claimed_of(w0.entities@[i2]).len()
                                    ==> entry_attracted(w0, dt, i2, k2, w.entities@, events@),
                            forall|i2: int|
                                0 <= i2 < i && (#[trigger] w0.entities@[i2]).receiver is None
                                    ==> w.entities@[i2].receiver is None,
                            forall|i2: int|
                                i < i2 < n ==> (#[trigger] w.entities@[i2]).receiver
                                    == w0.entities@[i2].receiver,
                            forall|j: int|
                                0 <= j < n && (forall|i2: int, k2: int|
                                    (i2 < i || (i2 == i && k2 < k)) && 0 <= i2 < n && 0 <= k2
                                        < claimed_of(w0.entities@[i2]).len()
                                        ==> #[trigger] claimed_of(w0.entities@[i2])[k2] != (
                                    #[trigger] w0.entities@[j]).id) ==> w.entities@[j].pos
                                    == w0.entities@[j].pos,
                        decreases m - k,
                    {
                        let cid = r.entities_picked[k];
                        let found = w.find_alive(cid);
                        match found {
                            Option::None => {
                                kept.push(cid);
                                proof {
                                    reveal(receiver_unclaimed);
                                    reveal(attract_effect);
                                    reveal(entry_attracted);
                                    kept_src = kept_src.push(k as int);
                                    let ii = i as int;
                                    let ghost tk = r1.entities_picked@.take(k as int);
                                    let ghost tk1 = r1.entities_picked@.take(k as int + 1);
                                    assert(tk1.drop_last() =~= tk);
                                    assert(tk1.last() == cid);
                                    assert(!entry_consumed(w0, dt, ii, cid)) by {
                                        if entry_consumed(w0, dt, ii, cid) {
                                            let jw = choose|jw: int|
                                                0 <= jw < w0.entities@.len() && (
                                                #[trigger] w0.entities@[jw]).id == cid
                                                    && w0.entities@[jw].alive
                                                    && w0.entities@[jw].pickup is Some
                                                    && attract_consumed(
                                                    w0.entities@[jw].pos,
                                                    w0.entities@[ii].pos,
                                                    w0.entities@[ii].receiver.unwrap(),
                                                    dt,
                                                );
                                            assert(w.entities@[jw].id == cid
                                                && w.entities@[jw].alive);
                                        }
                                    }
                                    if receiver_unclaimed(w0, ii) {
                                        assert(kept@ =~= attract_kept(tk1, w0, dt, ii));
                                    }
                                    assert forall|i2: int, k2: int|
                                        #![trigger entry_attracted(w0, dt, i2, k2, w.entities@, events@)]
                                        (i2 < i || (i2 == i && k2 < k as int + 1)) && 0 <= i2 < n
                                            && w0.entities@[i2].alive
                                            && w0.entities@[i2].receiver is Some
                                            && receiver_unclaimed(w0, i2) && 0 <= k2 < claimed_of(
                                            w0.entities@[i2],
                                        ).len() implies entry_attracted(
                                        w0,
                                        dt,
                                        i2,
                                        k2,
                                        w.entities@,
                                        events@,
                                    ) by {
                                        let cidt = claimed_of(w0.entities@[i2])[k2];
                                        if i2 == ii && k2 == k as int {
                                            assert forall|j2: int|
                                                0 <= j2 < w0.entities@.len() && (
                                                #[trigger] w0.entities@[j2]).id == claimed_of(
                                                    w0.entities@[ii],
                                                )[k as int] && w0.entities@[j2].alive
                                                    && w0.entities@[j2].pickup is Some implies attract_effect(
                                                w0,
                                                dt,
                                                ii,
                                                j2,
                                                w.entities@[j2].pos,
                                                events@,
                                            ) by {
                                                assert(w.entities@[j2].id == cid
                                                    && w.entities@[j2].alive);
                                                assert(false);
                                            }
                                        }
                                    }
                                }
                            },
                            Option::Some(j) => {
                                let has_pickup = w.entities[j].pickup.is_some();
                                if has_pickup {
                                    proof {
                                        assert(ent_wf(w.entities@[j as int]));
                                        let ii = i as int;
                                        let jj = j as int;
                                        assert(w0.entities@[jj].id == cid);
                                        assert(w0.entities@[jj].alive);
                                        assert(w0.entities@[jj].pickup is Some);
                                        assert forall|i2: int, k2: int|
                                            (i2 < i || (i2 == i && k2 < k as int)) && 0 <= i2 < n
                                                && 0 <= k2 < claimed_of(
                                                w0.entities@[i2],
                                            ).len() implies #[trigger] claimed_of(
                                            w0.entities@[i2],
                                        )[k2] != w0.entities@[jj].id by {
                                            if claimed_of(w0.entities@[i2])[k2]
                                                == w0.entities@[jj].id {
                                                assert(claimed_of(w0.entities@[ii])[k as int]
                                                    == w0.entities@[jj].id);
                                                assert(i2 != ii || k2 != k as int);
                                                assert(claimed_of(w0.entities@[i2])[k2]
                                                    != claimed_of(w0.entities@[ii])[k as int]);
                                            }
                                        }
                                        assert(w.entities@[jj].pos == w0.entities@[jj].pos);
                                    }
                                    let p = w.entities[j].pos;
                                    let newp = crate::geom::move_toward(p, rpos, step);
                                    let ghost w_m = *w;
                                    w.entities[j].pos = newp;
                                    proof {
                                        assert forall|j2: int|
                                            0 <= j2 < n implies {
                                            let e2 = #[trigger] w.entities@[j2];
                                            let e1 = w_m.entities@[j2];
                                            e2.id == e1.id && ent_wf(e2) && claimed_of(e2)
                                                == claimed_of(e1) && (e2.alive
                                                && e2.pickup is Some ==> e1.alive && e2.pickup
                                                == e1.pickup)
                                        } by {
                                            if j2 != j as int {
                                                assert(w.entities@[j2] == w_m.entities@[j2]);
                                            }
                                        }
                                        lemma_wf_preserved(w_m, *w);
                                        assert(non_attract_fields(w.entities@[j as int])
                                            == non_attract_fields(w_m.entities@[j as int]));
                                        assert forall|j2: int| 0 <= j2 < n implies (
                                        #[trigger] w.entities@[j2]).receiver
                                            == w_m.entities@[j2].receiver by {
                                            if j2 != j as int {
                                                assert(w.entities@[j2] == w_m.entities@[j2]);
                                            }
                                        }
                                        assert forall|i2: int|
                                            0 <= i2 < i && (#[trigger] w0.entities@[i2]).alive
                                                && w0.entities@[i2].receiver is Some implies receiver_kept_subset(
                                            *w,
                                            w0,
                                            i2,
                                        ) by {
                                            lemma_receiver_kept_subset_same(w_m, *w, w0, i2);
                                        }
                                        assert(claimed_of(w0.entities@[i as int])[k as int]
                                            == w0.entities@[j as int].id);
                                        let ii = i as int;
                                        let jj = j as int;
                                        assert forall|j2: int|
                                            0 <= j2 < n && (forall|i2: int, k2: int|
                                                (i2 < i || (i2 == i && k2 < k as int + 1)) && 0
                                                    <= i2 < n && 0 <= k2 < claimed_of(
                                                    w0.entities@[i2],
                                                ).len() ==> #[trigger] claimed_of(
                                                w0.entities@[i2],
                                            )[k2] != (#[trigger] w0.entities@[j2]).id) implies w.entities@[j2].pos
                                            == w0.entities@[j2].pos by {
                                            if j2 == jj {
                                                assert(claimed_of(w0.entities@[ii])[k as int]
                                                    == w0.entities@[j2].id);
                                                assert(false);
                                            } else {
                                                assert(w.entities@[j2].pos
                                                    == w_m.entities@[j2].pos);
                                            }
                                        }
                                        assert forall|i2: int, k2: int|
                                            #![trigger entry_attracted(w0, dt, i2, k2, w.entities@, events@)]
                                            (i2 < i || (i2 == i && k2 < k as int)) && 0 <= i2 < n
                                                && w0.entities@[i2].alive
                                                && w0.entities@[i2].receiver is Some
                                                && receiver_unclaimed(w0, i2) && 0 <= k2
                                                < claimed_of(
                                                w0.entities@[i2],
                                            ).len() implies entry_attracted(
                                            w0,
                                            dt,
                                            i2,
                                            k2,
                                            w.entities@,
                                            events@,
                                        ) by {
                                            let cidt = claimed_of(w0.entities@[i2])[k2];
                                            assert(entry_attracted(
                                                w0,
                                                dt,
                                                i2,
                                                k2,
                                                w_m.entities@,
                                                events@,
                                            ));
                                            assert(claimed_of(w0.entities@[ii])[k as int]
                                                == w0.entities@[jj].id);
                                            assert(i2 != ii || k2 != k as int);
                                            assert(claimed_of(w0.entities@[i2])[k2]
                                                != claimed_of(w0.entities@[ii])[k as int]);
                                            lemma_entry_attracted_extend(
                                                w0,
                                                dt,
                                                i2,
                                                k2,
                                                jj,
                                                w_m.entities@,
                                                w.entities@,
                                                events@,
                                                events@,
                                            );
                                        }
                                    }
                                    let d2 = dist_squared(rpos, newp);
                                    proof {
                                        crate::geom::lemma_square_bound(
                                            pick_distance as int,
                                            COORD_LIMIT as int,
                                        );
                                    }
                                    if d2 <= pick_distance as i128 * pick_distance as i128 {
                                        w.queue.enqueue(crate::world::Command::Despawn(cid));
                                        let ev = OnPickedUp {
                                            receiver_entity: rid,
                                            item_entity: cid,
                                        };
                                        let ghost evs_old = events@;
                                        events.push(ev);
                                        proof {
                                            reveal(receiver_unclaimed);
                                            reveal(attract_effect);
                                            reveal(entry_attracted);
                                            reveal(event_justified);
                                            srcs = srcs.push((i as int, k as int));
                                            let ii = i as int;
                                            let jj = j as int;
                                            assert(claimed_of(w0.entities@[ii])[k as int]
                                                == ev.item_entity && w0.entities@[ii].id
                                                == ev.receiver_entity);
                                            if receiver_unclaimed(w0, ii) {
                                                assert(rpos == w0.entities@[ii].pos);
                                                assert(step as int == attract_step(r1, dt));
                                                assert(attract_moved(
                                                    w0.entities@[jj].pos,
                                                    w0.entities@[ii].pos,
                                                    r1,
                                                    dt,
                                                ) == newp);
                                                assert(attract_consumed(
                                                    w0.entities@[jj].pos,
                                                    w0.entities@[ii].pos,
                                                    r1,
                                                    dt,
                                                ));
                                                assert(entry_consumed(w0, dt, ii, cid));
                                                let ghost tk = r1.entities_picked@.take(
                                                    k as int,
                                                );
                                                let ghost tk1 = r1.entities_picked@.take(
                                                    k as int + 1,
                                                );
                                                assert(tk1.drop_last() =~= tk);
                                                assert(tk1.last() == cid);
                                                assert(kept@ =~= attract_kept(tk1, w0, dt, ii));
                                            }
                                            assert(event_justified(ev, w0, dt));
                                            assert(w.queue.items@ =~= w0.queue.items@
                                                + despawns_of(events@));
                                            assert forall|e1: int, e2: int|
                                                0 <= e1 < e2 < events@.len() implies (
                                            #[trigger] events@[e1]).item_entity != (
                                            #[trigger] events@[e2]).item_entity by {
                                                if e2 == events@.len() - 1 {
                                                    let (si, sk) = srcs[e1];
                                                    assert(claimed_of(w0.entities@[si])[sk]
                                                        != claimed_of(
                                                        w0.entities@[i as int],
                                                    )[k as int]);
                                                }
                                            }
                                            assert forall|i2: int, k2: int|
                                                #![trigger entry_attracted(w0, dt, i2, k2, w.entities@, events@)]
                                                (i2 < i || (i2 == i && k2 < k as int + 1)) && 0
                                                    <= i2 < n && w0.entities@[i2].alive
                                                    && w0.entities@[i2].receiver is Some
                                                    && receiver_unclaimed(w0, i2) && 0 <= k2
                                                    < claimed_of(
                                                    w0.entities@[i2],
                                                ).len() implies entry_attracted(
                                                w0,
                                                dt,
                                                i2,
                                                k2,
                                                w.entities@,
                                                events@,
                                            ) by {
                                                let cidt = claimed_of(w0.entities@[i2])[k2];
                                                if i2 == ii && k2 == k as int {
                                                    assert forall|j2: int|
                                                        0 <= j2 < w0.entities@.len() && (
                                                        #[trigger] w0.entities@[j2]).id
                                                            == claimed_of(
                                                            w0.entities@[ii],
                                                        )[k as int] && w0.entities@[j2].alive
                                                            && w0.entities@[j2].pickup is Some implies attract_effect(
                                                        w0,
                                                        dt,
                                                        ii,
                                                        j2,
                                                        w.entities@[j2].pos,
                                                        events@,
                                                    ) by {
                                                        lemma_unique_id(w0, jj, j2);
                                                        assert(events@[events@.len() - 1] == (
                                                        OnPickedUp {
                                                            receiver_entity: w0.entities@[ii].id,
                                                            item_entity: w0.entities@[jj].id,
                                                        }));
                                                    }
                                                } else {
                                                    let cidt = claimed_of(
                                                        w0.entities@[i2],
                                                    )[k2];
                                                    assert(entry_attracted(
                                                        w0,
                                                        dt,
                                                        i2,
                                                        k2,
                                                        w.entities@,
                                                        evs_old,
                                                    ));
                                                    lemma_entry_attracted_extend(
                                                        w0,
                                                        dt,
                                                        i2,
                                                        k2,
                                                        -1,
                                                        w.entities@,
                                                        w.entities@,
                                                        evs_old,
                                                        events@,
                                                    );
                                                }
                                            }
                                        }
                                        let ghost w_c = *w;
                                        crate::score::on_pickup_money(w, ev);
                                        proof {
                                            let ii = i as int;
                                            assert(w.entities@ == w_c.entities@);
                                            assert forall|j2: int| 0 <= j2 < n implies (
                                            #[trigger] w_c.entities@[j2]).id
                                                == w0.entities@[j2].id && w_c.entities@[j2].alive
                                                == w0.entities@[j2].alive
                                                && w_c.entities@[j2].money
                                                == w0.entities@[j2].money by {
                                                assert(non_attract_fields(w_c.entities@[j2])
                                                    == non_attract_fields(w0.entities@[j2]));
                                            }
                                            lemma_money_value_same(w0, w_c, cid);
                                            if exists|jm: int|
                                                0 <= jm < n && (#[trigger] w_c.entities@[jm]).id
                                                    == cid && w_c.entities@[jm].alive
                                                    && w_c.entities@[jm].money is Some {
                                                let jm = choose|jm: int|
                                                    0 <= jm < n && (
                                                    #[trigger] w_c.entities@[jm]).id == cid
                                                        && w_c.entities@[jm].alive
                                                        && w_c.entities@[jm].money is Some;
                                                let jv = choose|j2: int|
                                                    0 <= j2 < w_c.entities@.len() && (
                                                    #[trigger] w_c.entities@[j2]).id == cid
                                                        && w_c.entities@[j2].alive
                                                        && w_c.entities@[j2].money is Some;
                                                lemma_unique_id(w_c, jm, jv);
                                                assert(money_value_at(w_c, cid)
                                                    == w_c.entities@[jm].money.unwrap().0 as int);
                                                assert(w.currency.0 as int == sat_add_u32(
                                                    w_c.currency.0 as int,
                                                    money_value_at(w_c, cid),
                                                ));
                                            } else {
                                                assert forall|j2: int|
                                                    0 <= j2 < n implies !((
                                                #[trigger] w_c.entities@[j2]).id == cid
                                                    && w_c.entities@[j2].alive
                                                    && w_c.entities@[j2].money is Some) by {}
                                                assert(w.currency == w_c.currency);
                                                assert(money_value_at(w_c, cid) == 0);
                                            }
                                            assert(events@.drop_last() =~= evs_old);
                                            assert(events@.last() == ev);
                                            assert(w.currency.0 as int == credited(
                                                w0.currency.0 as int,
                                                w0,
                                                events@,
                                            ));
                                        }
                                    } else {
                                        kept.push(cid);
                                        proof {
                                            reveal(receiver_unclaimed);
                                            reveal(attract_effect);
                                            reveal(entry_attracted);
                                            kept_src = kept_src.push(k as int);
                                            let ii = i as int;
                                            let jj = j as int;
                                            let ghost tk1 = r1.entities_picked@.take(
                                                k as int + 1,
                                            );
                                            assert(tk1.drop_last() =~= r1.entities_picked@.take(
                                                k as int,
                                            ));
                                            assert(tk1.last() == cid);
                                            if receiver_unclaimed(w0, ii) {
                                                assert(rpos == w0.entities@[ii].pos);
                                                assert(step as int == attract_step(r1, dt));
                                                assert(attract_moved(
                                                    w0.entities@[jj].pos,
                                                    w0.entities@[ii].pos,
                                                    r1,
                                                    dt,
                                                ) == newp);
                                                assert(!attract_consumed(
                                                    w0.entities@[jj].pos,
                                                    w0.entities@[ii].pos,
                                                    r1,
                                                    dt,
                                                ));
                                                assert(!entry_consumed(w0, dt, ii, cid)) by {
                                                    if entry_consumed(w0, dt, ii, cid) {
                                                        let jw = choose|jw: int|
                                                            0 <= jw < w0.entities@.len() && (
                                                            #[trigger] w0.entities@[jw]).id
                                                                == cid && w0.entities@[jw].alive
                                                                && w0.entities@[jw].pickup is Some
                                                                && attract_consumed(
                                                                w0.entities@[jw].pos,
                                                                w0.entities@[ii].pos,
                                                                w0.entities@[ii].receiver.unwrap(),
                                                                dt,
                                                            );
                                                        lemma_unique_id(w0, jj, jw);
                                                    }
                                                }
                                                assert(kept@ =~= attract_kept(tk1, w0, dt, ii));
                                            }
                                            assert forall|i2: int, k2: int|
                                                #![trigger entry_attracted(w0, dt, i2, k2, w.entities@, events@)]
                                                (i2 < i || (i2 == i && k2 < k as int + 1)) && 0
                                                    <= i2 < n && w0.entities@[i2].alive
                                                    && w0.entities@[i2].receiver is Some
                                                    && receiver_unclaimed(w0, i2) && 0 <= k2
                                                    < claimed_of(
                                                    w0.entities@[i2],
                                                ).len() implies entry_attracted(
                                                w0,
                                                dt,
                                                i2,
                                                k2,
                                                w.entities@,
                                                events@,
                                            ) by {
                                                let cidt = claimed_of(w0.entities@[i2])[k2];
                                                if i2 == ii && k2 == k as int {
                                                    assert forall|j2: int|
                                                        0 <= j2 < w0.entities@.len() && (
                                                        #[trigger] w0.entities@[j2]).id
                                                            == claimed_of(
                                                            w0.entities@[ii],
                                                        )[k as int] && w0.entities@[j2].alive
                                                            && w0.entities@[j2].pickup is Some implies attract_effect(
                                                        w0,
                                                        dt,
                                                        ii,
                                                        j2,
                                                        w.entities@[j2].pos,
                                                        events@,
                                                    ) by {
                                                        lemma_unique_id(w0, jj, j2);
                                                    }
                                                }
                                            }
                                        }
                                    }
                                } else {
                                    kept.push(cid);
                                    proof {
                                        reveal(receiver_unclaimed);
                                        reveal(attract_effect);
                                        reveal(entry_attracted);
                                        kept_src = kept_src.push(k as int);
                                        let ii = i as int;
                                        let jj = j as int;
                                        let ghost tk1 = r1.entities_picked@.take(k as int + 1);
                                        assert(tk1.drop_last() =~= r1.entities_picked@.take(
                                            k as int,
                                        ));
                                        assert(tk1.last() == cid);
                                        assert(w0.entities@[jj].id == cid);
                                        assert(w0.entities@[jj].alive);
                                        assert(w0.entities@[jj].pickup is None);
                                        assert(!entry_consumed(w0, dt, ii, cid)) by {
                                            if entry_consumed(w0, dt, ii, cid) {
                                                let jw = choose|jw: int|
                                                    0 <= jw < w0.entities@.len() && (
                                                    #[trigger] w0.entities@[jw]).id == cid
                                                        && w0.entities@[jw].alive
                                                        && w0.entities@[jw].pickup is Some
                                                        && attract_consumed(
                                                        w0.entities@[jw].pos,
                                                        w0.entities@[ii].pos,
                                                        w0.entities@[ii].receiver.unwrap(),
                                                        dt,
                                                    );
                                                lemma_unique_id(w0, jj, jw);
                                            }
                                        }
                                        if receiver_unclaimed(w0, ii) {
                                            assert(kept@ =~= attract_kept(tk1, w0, dt, ii));
                                        }
                                        assert forall|i2: int, k2: int|
                                            #![trigger claimed_of(w0.entities@[i2])[k2]]
                                            (i2 < i || (i2 == i && k2 < k as int + 1)) && 0 <= i2
                                                < n && w0.entities@[i2].alive
                                                && w0.entities@[i2].receiver is Some
                                                && receiver_unclaimed(w0, i2) && 0 <= k2
                                                < claimed_of(
                                                w0.entities@[i2],
                                            ).len() implies entry_attracted(
                                            w0,
                                            dt,
                                            i2,
                                            k2,
                                            w.entities@,
                                            events@,
                                        ) by {
                                            let cidt = claimed_of(w0.entities@[i2])[k2];
                                            if i2 == ii && k2 == k as int {
                                                assert forall|j2: int|
                                                    0 <= j2 < w0.entities@.len() && (
                                                    #[trigger] w0.entities@[j2]).id
                                                        == claimed_of(
                                                        w0.entities@[ii],
                                                    )[k as int] && w0.entities@[j2].alive
                                                        && w0.entities@[j2].pickup is Some implies attract_effect(
                                                    w0,
                                                    dt,
                                                    ii,
                                                    j2,
                                                    w.entities@[j2].pos,
                                                    events@,
                                                ) by {
                                                    lemma_unique_id(w0, jj, j2);
                                                    assert(false);
                                                }
                                            }
                                        }
                                    }
                                }
                            },
                        }
                        k = k + 1;
                    }
                    let ghost w_end = *w;
                    r.entities_picked = kept;
                    w.entities[i].receiver = Option::Some(r);
                    proof {
                        let ii = i as int;
                        assert forall|i2: int, k2: int|
                            0 <= i2 < n && 0 <= k2 < claimed_of(
                                w.entities@[i2],
                            ).len() implies w.claim_ok(
                            i2,
                            #[trigger] claimed_of(w.entities@[i2])[k2],
                        ) by {
                            if i2 != ii {
                                assert(claimed_of(w.entities@[i2]) == claimed_of(
                                    w_end.entities@[i2],
                                ));
                                assert(w_end.claim_ok(i2, claimed_of(w_end.entities@[i2])[k2]));
                                assert forall|j2: int|
                                    0 <= j2 < n && (#[trigger] w.entities@[j2]).id == claimed_of(
                                        w.entities@[i2],
                                    )[k2] && w.entities@[j2].alive
                                        && w.entities@[j2].pickup is Some implies w.entities@[j2].pickup
                                    == Option::Some(PickUp::Picking(w.entities@[i2].id)) by {
                                    assert(w.entities@[j2].pickup == w_end.entities@[j2].pickup);
                                    assert(w_end.entities@[j2].id == claimed_of(
                                        w_end.entities@[i2],
                                    )[k2] && w_end.entities@[j2].alive);
                                }
                            } else {
                                let cid = claimed_of(w.entities@[ii])[k2];
                                assert(cid == kept@[k2]);
                                let ks = kept_src[k2];
                                assert(r1.entities_picked@[ks] == cid);
                                assert(claimed_of(w0.entities@[ii])[ks] == cid);
                                assert(w0.claim_ok(ii, cid));
                                assert(cid < w0.next_id);
                                assert forall|j2: int|
                                    0 <= j2 < n && (#[trigger] w.entities@[j2]).id == cid
                                        && w.entities@[j2].alive
                                        && w.entities@[j2].pickup is Some implies w.entities@[j2].pickup
                                    == Option::Some(PickUp::Picking(w.entities@[ii].id)) by {
                                    assert(non_attract_fields(w.entities@[j2])
                                        == non_attract_fields(w0.entities@[j2]));
                                    assert(w0.entities@[j2].id == cid);
                                    assert(w0.entities@[j2].pickup == w.entities@[j2].pickup);
                                    assert(w0.entities@[j2].alive == w.entities@[j2].alive);
                                }
                            }
                        }
                        assert forall|i2: int, k2: int|
                            0 <= i2 < n && i2 != ii && 0 <= k2 < claimed_of(
                                w.entities@[i2],
                            ).len() implies claimed_of(w0.entities@[i2]).contains(
                            #[trigger] claimed_of(w.entities@[i2])[k2],
                        ) by {
                            if !w0.entities@[i2].alive {
                                assert(w.entities@[i2] == w0.entities@[i2]);
                                assert(claimed_of(w0.entities@[i2])[k2] == claimed_of(
                                    w.entities@[i2],
                                )[k2]);
                                assert(claimed_of(w0.entities@[i2]).contains(
                                    claimed_of(w.entities@[i2])[k2],
                                ));
                            } else if w0.entities@[i2].receiver is None {
                                assert(w.entities@[i2].receiver is None);
                            } else if i2 < ii {
                                assert(w.entities@[i2].receiver
                                    == w_end.entities@[i2].receiver);
                                lemma_receiver_kept_subset_same(w_end, *w, w0, i2);
                                assert(receiver_kept_subset(*w, w0, i2));
                                assert(list_subset_of(
                                    w.entities@[i2].receiver.unwrap().entities_picked@,
                                    w0.entities@[i2].receiver.unwrap().entities_picked@,
                                ));
                                assert(claimed_of(w.entities@[i2])[k2]
                                    == w.entities@[i2].receiver.unwrap().entities_picked@[k2]);
                                assert(claimed_of(w0.entities@[i2])
                                    == w0.entities@[i2].receiver.unwrap().entities_picked@);
                            } else {
                                assert(w.entities@[i2].receiver == w0.entities@[i2].receiver);
                                assert(claimed_of(w0.entities@[i2])[k2] == claimed_of(
                                    w.entities@[i2],
                                )[k2]);
                                assert(claimed_of(w0.entities@[i2]).contains(
                                    claimed_of(w.entities@[i2])[k2],
                                ));
                            }
                        }
                        assert forall|i1: int, k1: int, i2: int, k2: int|
                            #![trigger claimed_of(w.entities@[i1])[k1], claimed_of(w.entities@[i2])[k2]]
                            0 <= i1 < n && 0 <= k1 < claimed_of(w.entities@[i1]).len() && 0 <= i2
                                < n && 0 <= k2 < claimed_of(w.entities@[i2]).len() && (i1 != i2
                                || k1 != k2) implies claimed_of(w.entities@[i1])[k1] != claimed_of(
                            w.entities@[i2],
                        )[k2] by {
                            if i1 == ii && i2 == ii {
                                assert(claimed_of(w.entities@[ii])[k1] == claimed_of(
                                    w0.entities@[ii],
                                )[kept_src[k1]]);
                                assert(claimed_of(w.entities@[ii])[k2] == claimed_of(
                                    w0.entities@[ii],
                                )[kept_src[k2]]);
                                assert(kept_src[k1] != kept_src[k2]);
                                assert(claimed_of(w0.entities@[ii])[kept_src[k1]] != claimed_of(
                                    w0.entities@[ii],
                                )[kept_src[k2]]);
                            } else if i1 == ii {
                                assert(claimed_of(w.entities@[ii])[k1] == claimed_of(
                                    w0.entities@[ii],
                                )[kept_src[k1]]);
                                assert(claimed_of(w0.entities@[i2]).contains(
                                    claimed_of(w.entities@[i2])[k2],
                                ));
                                let k3 = choose|k3: int|
                                    0 <= k3 < claimed_of(w0.entities@[i2]).len() && claimed_of(
                                        w0.entities@[i2],
                                    )[k3] == claimed_of(w.entities@[i2])[k2];
                                assert(claimed_of(w0.entities@[ii])[kept_src[k1]] != claimed_of(
                                    w0.entities@[i2],
                                )[k3]);
                            } else if i2 == ii {
                                assert(claimed_of(w.entities@[ii])[k2] == claimed_of(
                                    w0.entities@[ii],
                                )[kept_src[k2]]);
                                assert(claimed_of(w0.entities@[i1]).contains(
                                    claimed_of(w.entities@[i1])[k1],
                                ));
                                let k3 = choose|k3: int|
                                    0 <= k3 < claimed_of(w0.entities@[i1]).len() && claimed_of(
                                        w0.entities@[i1],
                                    )[k3] == claimed_of(w.entities@[i1])[k1];
                                assert(claimed_of(w0.entities@[ii])[kept_src[k2]] != claimed_of(
                                    w0.entities@[i1],
                                )[k3]);
                            } else {
                                assert(claimed_of(w.entities@[i1]) == claimed_of(
                                    w_end.entities@[i1],
                                ));
                                assert(claimed_of(w.entities@[i2]) == claimed_of(
                                    w_end.entities@[i2],
                                ));
                                assert(w_end.claims_disjoint());
                            }
                        }
                        assert forall|j2: int| 0 <= j2 < n implies ent_wf(
                            #[trigger] w.entities@[j2],
                        ) by {
                            if j2 != ii {
                                assert(w.entities@[j2] == w_end.entities@[j2]);
                            } else {
                                assert(ent_wf(w0.entities@[ii]));
                            }
                        }
                        assert forall|k2: int| 0 <= k2 < kept@.len() implies exists|k3: int|
                            0 <= k3 < r1.entities_picked@.len() && r1.entities_picked@[k3] == (
                            #[trigger] kept@[k2]) by {
                            assert(r1.entities_picked@[kept_src[k2]] == kept@[k2]);
                        }
                        assert(non_attract_fields(w.entities@[ii]) == non_attract_fields(
                            w_end.entities@[ii],
                        ));
                        assert(w.entities@[ii].receiver matches Option::Some(rr) && rr == (
                        PickUpReceiver { entities_picked: rr.entities_picked, ..r1 })
                            && rr.entities_picked@ == kept@);
                        assert forall|k2: int|
                            0 <= k2 < kept@.len() implies r1.entities_picked@.contains(
                            #[trigger] kept@[k2],
                        ) by {
                            assert(r1.entities_picked@[kept_src[k2]] == kept@[k2]);
                        }
                        assert(list_subset_of(kept@, r1.entities_picked@));
                        assert(w.entities@[ii].receiver.unwrap().entities_picked@ == kept@);
                        assert(receiver_kept_subset(*w, w0, ii));
                        assert forall|i2: int|
                            0 <= i2 < i && (#[trigger] w0.entities@[i2]).alive
                                && w0.entities@[i2].receiver is Some implies receiver_kept_subset(
                            *w,
                            w0,
                            i2,
                        ) by {
                            assert(w.entities@[i2].receiver == w_end.entities@[i2].receiver);
                            lemma_receiver_kept_subset_same(w_end, *w, w0, i2);
                        }
                        if receiver_unclaimed(w0, ii) {
                            assert(r1.entities_picked@.take(m as int) =~= r1.entities_picked@);
                            assert(claimed_of(w.entities@[ii]) == kept@);
                            assert(claimed_of(w.entities@[ii]) == attract_kept(
                                claimed_of(w0.entities@[ii]),
                                w0,
                                dt,
                                ii,
                            ));
                        }
                        assert forall|j2: int| 0 <= j2 < n implies (
                        #[trigger] w.entities@[j2]).pos == w_end.entities@[j2].pos by {
                            if j2 != ii {
                                assert(w.entities@[j2] == w_end.entities@[j2]);
                            }
                        }
                        assert(m == claimed_of(w0.entities@[ii]).len());
                        assert forall|i2: int, k2: int|
                            #![trigger entry_attracted(w0, dt, i2, k2, w.entities@, events@)]
                            (i2 < i || (i2 == i && k2 < claimed_of(w0.entities@[i2]).len())) && 0
                                <= i2 < n && w0.entities@[i2].alive
                                && w0.entities@[i2].receiver is Some && receiver_unclaimed(
                                w0,
                                i2,
                            ) && 0 <= k2 < claimed_of(
                                w0.entities@[i2],
                            ).len() implies entry_attracted(
                            w0,
                            dt,
                            i2,
                            k2,
                            w.entities@,
                            events@,
                        ) by {
                            let cidt = claimed_of(w0.entities@[i2])[k2];
                            assert(entry_attracted(w0, dt, i2, k2, w_end.entities@, events@));
                            lemma_entry_attracted_extend(
                                w0,
                                dt,
                                i2,
                                k2,
                                -1,
                                w_end.entities@,
                                w.entities@,
                                events@,
                                events@,
                            );
                        }
                        assert forall|j2: int|
                            0 <= j2 < n && (forall|i2: int, k2: int|
                                (i2 < i + 1) && 0 <= i2 < n && 0 <= k2 < claimed_of(
                                    w0.entities@[i2],
                                ).len() ==> #[trigger] claimed_of(w0.entities@[i2])[k2] != (
                                #[trigger] w0.entities@[j2]).id) implies w.entities@[j2].pos
                            == w0.entities@[j2].pos by {
                            assert(w.entities@[j2].pos == w_end.entities@[j2].pos);
                        }
                    }
                },
                Option::None => {
                    proof {
                        assert(false);
                    }
                },
            }
        }
        i = i + 1;
    }
    events
}

/// The despawn request generic death cleanup queues for a dying entity
/// that is tagged to be destroyed on death.
pub open spec fn cleanup_cmds(e: crate::world::Entity) -> Seq<crate::world::Command> {
    if e.destroy_on_death {
        seq![crate::world::Command::Despawn(e.id)]
    } else {
        Seq::empty()
    }
}

/// Generic death cleanup: queues the removal of a dying entity that is
/// tagged to be destroyed on death. It runs after the domain death
/// subscribers, so their reads of the dying entity come first.
pub fn apply_destroy_on_death(w: &mut crate::world::World, target: u64)
    requires
        old(w).wf(),
    ensures
        final(w).wf(),
        final(w).entities@ == old(w).entities@,
        final(w).next_id == old(w).next_id,
        final(w).state == old(w).state,
        final(w).currency == old(w).currency,
        (forall|j: int|
            0 <= j < old(w).entities@.len() ==> !((#[trigger] old(w).entities@[j]).id == target
                && old(w).entities@[j].alive)) ==> final(w).queue.items@ == old(w).queue.items@,
        forall|i: int|
            0 <= i < old(w).entities@.len() && (#[trigger] old(w).entities@[i]).id == target && old(w).entities@[i].alive ==> final(w).queue.items@ == old(w).queue.items@ + cleanup_cmds(
                old(w).entities@[i],
            ),
{
    let found = w.find_alive(target);
    match found {
        Option::Some(i) => {
            let ghost w1 = *w;
            if w.entities[i].destroy_on_death {
                w.queue.enqueue(crate::world::Command::Despawn(target));
            }
            proof {
                assert forall|j: int|
                    0 <= j < w1.entities@.len() && (#[trigger] w1.entities@[j]).id == target
                        && w1.entities@[j].alive implies w.queue.items@ == w1.queue.items@
                    + cleanup_cmds(w1.entities@[j]) by {
                    crate::world::lemma_unique_id(w1, i as int, j);
                    if w1.entities@[j].destroy_on_death {
                        assert(w.queue.items@ =~= w1.queue.items@ + cleanup_cmds(
                            w1.entities@[j],
                        ));
                    } else {
                        assert(w.queue.items@ =~= w1.queue.items@ + cleanup_cmds(
                            w1.entities@[j],
                        ));
                    }
                }
            }
        },
        Option::None => {},
    }
}

/// Whether a living time-boxed entity's countdown completes within a
/// tick of `dt`.
pub open spec fn expired(e: Entity, dt: u64) -> bool {
    e.alive && (e.lifetime matches Option::Some(l) && l.remaining <= dt)
}

/// `e` after its lifetime advanced by `dt` (entities without a
/// lifetime, and dead ones, are untouched).
pub open spec fn life_ticked(e: Entity, dt: u64) -> Entity {
    if e.alive && e.lifetime is Some {
        let l = e.lifetime.unwrap();
        Entity {
            lifetime: Option::Some(
                Lifetime {
                    remaining: if l.remaining <= dt {
                        0
                    } else {
                        (l.remaining - dt) as u64
                    },
                },
            ),
            ..e
        }
    } else {
        e
    }
}

/// The removal requests one reaper pass queues: one despawn per living
/// entity whose countdown completes this tick, in store order.
pub open spec fn reap_cmds(s: Seq<Entity>, dt: u64) -> Seq<crate::world::Command>
    decreases s.len(),
{
    if s.len() == 0 {
        Seq::empty()
    } else {
        reap_cmds(s.drop_last(), dt) + (if expired(s.last(), dt) {
            seq![crate::world::Command::Despawn(s.last().id)]
        } else {
            Seq::empty()
        })
    }
}

/// The lifetime reaper: advances every living entity's countdown by
/// the frame delta and queues the removal of exactly those whose
/// countdown completes, independent of health and death.
pub fn process_lifetimes(w: &mut World, dt: u64)
    requires
        old(w).wf(),
        dt <= DT_LIMIT,
    ensures
        final(w).wf(),
        final(w).entities@.len() == old(w).entities@.len(),
        final(w).next_id == old(w).next_id,
        final(w).state == old(w).state,
        final(w).currency == old(w).currency,
        forall|j: int|
            0 <= j < old(w).entities@.len() ==> final(w).entities@[j] == life_ticked(
                #[trigger] old(w).entities@[j],
                dt,
            ),
        final(w).queue.items@ == old(w).queue.items@ + reap_cmds(old(w).entities@, dt),
{
    let ghost w0 = *w;
    let n = w.entities.len();
    let mut i: usize = 0;
    while i < n
        invariant
            w0 == *old(w),
            w0.wf(),
            w.wf(),
            dt <= DT_LIMIT,
            n == w0.entities@.len(),
            i <= n,
            w.entities@.len() == n,
            w.next_id == w0.next_id,
            w.state == w0.state,
            w.currency == w0.currency,
            forall|j: int|
                0 <= j < i ==> w.entities@[j] == life_ticked(#[trigger] w0.entities@[j], dt),
            forall|j: int| i <= j < n ==> #[trigger] w.entities@[j] == w0.entities@[j],
            w.queue.items@ == w0.queue.items@ + reap_cmds(w0.entities@.take(i as int), dt),
        decreases n - i,
    {
        let ghost ti = w0.entities@.take(i as int);
        let ghost ti1 = w0.entities@.take(i as int + 1);
        proof {
            assert(ti1.drop_last() =~= ti);
            assert(ti1.last() == w0.entities@[i as int]);
        }
        let alive_i = w.entities[i].alive;
        let lt = w.entities[i].lifetime;
        match lt {
            Option::Some(l) => {
                if alive_i {
                    let newr: u64 = if l.remaining <= dt {
                        0
                    } else {
                        l.remaining - dt
                    };
                    let ghost w_m = *w;
                    w.entities[i].lifetime = Option::Some(Lifetime { remaining: newr });
                    proof {
                        assert forall|j2: int| 0 <= j2 < n implies {
                            let e2 = #[trigger] w.entities@[j2];
                            let e1 = w_m.entities@[j2];
                            e2.id == e1.id && ent_wf(e2) && claimed_of(e2) == claimed_of(e1) && (
                            e2.alive && e2.pickup is Some ==> e1.alive && e2.pickup == e1.pickup)
                        } by {
                            if j2 != i as int {
                                assert(w.entities@[j2] == w_m.entities@[j2]);
                            }
                        }
                        lemma_wf_preserved(w_m, *w);
                    }
                    if l.remaining <= dt {
                        w.queue.enqueue(crate::world::Command::Despawn(w.entities[i].id));
                        proof {
                            assert(w.queue.items@ =~= w0.queue.items@ + reap_cmds(ti1, dt));
                        }
                    } else {
                        proof {
                            assert(w.queue.items@ =~= w0.queue.items@ + reap_cmds(ti1, dt));
                        }
                    }
                } else {
                    proof {
                        assert(w.queue.items@ =~= w0.queue.items@ + reap_cmds(ti1, dt));
                    }
                }
            },
            Option::None => {
                proof {
                    assert(w.queue.items@ =~= w0.queue.items@ + reap_cmds(ti1, dt));
                }
            },
        }
        i = i + 1;
    }
    proof {
        assert(w0.entities@.take(n as int) =~= w0.entities@);
    }
}

/// The countdown left on a lifetime of `r` after the frame deltas in
/// `dts` have elapsed, never below zero.
pub open spec fn remaining_after(r: int, dts: Seq<u64>) -> int
    decreases dts.len(),
{
    if dts.len() == 0 {
        r
    } else {
        let p = remaining_after(r, dts.drop_last());
        if dts.last() >= p {
            0
        } else {
            p - dts.last()
        }
    }
}

/// Sum of a sequence of frame deltas.
pub open spec fn sum_dts(dts: Seq<u64>) -> int
    decreases dts.len(),
{
    if dts.len() == 0 {
        0
    } else {
        sum_dts(dts.drop_last()) + dts.last()
    }
}

/// Lifetime expiry: an entity with a lifetime of `t` lives exactly
/// while the elapsed frame deltas sum to less than `t`. Its countdown
/// after any run of ticks is `t` less the elapsed time (never below
/// zero), so it is positive — the entity is still present — exactly
/// until the first tick at which the accumulated time reaches `t`.
pub proof fn lemma_lifetime_expiry(t: u64, dts: Seq<u64>)
    ensures
        remaining_after(t as int, dts) == (if sum_dts(dts) >= t {
            0int
        } else {
            t - sum_dts(dts)
        }),
        (remaining_after(t as int, dts) > 0) <==> (sum_dts(dts) < t),
    decreases dts.len(),
{
    if dts.len() > 0 {
        lemma_lifetime_expiry(t, dts.drop_last());
    }
}

/// Fired when a claimed item reaches its receiver's consumption radius.
#[derive(Clone, Copy, Debug, PartialEq, Eq, Structural)]
pub struct OnPickedUp {
    /// The receiver that collected the item.
    pub receiver_entity: u64,
    /// The item that was collected.
    pub item_entity: u64,
}

} // verus!
