//! Followers: entities that track another entity at a fixed offset.

use vstd::prelude::*;

use crate::geom::coord_in_range;
use crate::geom::Vec2;
use crate::geom::COORD_LIMIT;
use crate::world::claimed_of;
use crate::world::ent_wf;
use crate::world::lemma_wf_preserved;
use crate::world::Entity;
use crate::world::World;

verus! {

/// Keeps the owning entity at `offset` from the target entity.
#[derive(Clone, Copy, Debug, PartialEq, Eq, Structural)]
pub struct FollowEntity {
    /// Offset from the target, in fixed-point units.
    pub offset: Vec2,
    /// The entity to follow, by id.
    pub entity: u64,
}

/// The follow system: every living follower whose target is alive
/// moves to the target's position plus its offset. A stale target, or
/// a sum that leaves the world's coordinate range, leaves the follower
/// where it is for this tick.
pub fn run_follow_entity(w: &mut World)
    requires
        old(w).wf(),
    ensures
        final(w).wf(),
        final(w).entities@.len() == old(w).entities@.len(),
        final(w).next_id == old(w).next_id,
        final(w).queue == old(w).queue,
        final(w).state == old(w).state,
        final(w).currency == old(w).currency,
        forall|j: int|
            0 <= j < old(w).entities@.len() ==> final(w).entities@[j] == (Entity {
                pos: final(w).entities@[j].pos,
                ..(#[trigger] old(w).entities@[j])
            }),
        forall|j: int|
            0 <= j < old(w).entities@.len() && !((#[trigger] old(w).entities@[j]).alive && old(w).entities@[j].follow is Some) ==> final(w).entities@[j].pos == old(w).entities@[j].pos,
        forall|j: int, t: int|
            #![trigger old(w).entities@[j].follow, old(w).entities@[t].id]
            0 <= j < old(w).entities@.len() && old(w).entities@[j].alive && old(w).entities@[j].follow is Some && 0 <= t < old(w).entities@.len() && old(w).entities@[t].id == old(w).entities@[j].follow.unwrap().entity && old(w).entities@[t].alive && old(w).entities@[t].follow is None ==> {
                let nx = old(w).entities@[t].pos.x + old(w).entities@[j].follow.unwrap().offset.x;
                let ny = old(w).entities@[t].pos.y + old(w).entities@[j].follow.unwrap().offset.y;
                final(w).entities@[j].pos == (if -COORD_LIMIT <= nx <= COORD_LIMIT
                    && -COORD_LIMIT <= ny <= COORD_LIMIT {
                    Vec2 { x: nx as i64, y: ny as i64 }
                } else {
                    old(w).entities@[j].pos
                })
            },
{
    let ghost w0 = *w;
    let n = w.entities.len();
    let mut i: usize = 0;
    while i < n
        invariant
            w0 == *old(w),
            w0.wf(),
            w.wf(),
            n == w0.entities@.len(),
            i <= n,
            w.entities@.len() == n,
            w.next_id == w0.next_id,
            w.queue == w0.queue,
            w.state == w0.state,
            w.currency == w0.currency,
            forall|j: int|
                0 <= j < n ==> w.entities@[j] == (Entity {
                    pos: w.entities@[j].pos,
                    ..(#[trigger] w0.entities@[j])
                }),
            forall|j: int|
                0 <= j < n && !((#[trigger] w0.entities@[j]).alive && w0.entities@[j].follow is Some)
                    ==> w.entities@[j].pos == w0.entities@[j].pos,
            forall|j: int|
                i <= j < n ==> (#[trigger] w.entities@[j]).pos == w0.entities@[j].pos,
            forall|j: int, t: int|
                #![trigger w0.entities@[j].follow, w0.entities@[t].id]
                0 <= j < i && w0.entities@[j].alive && w0.entities@[j].follow is Some && 0 <= t
                    < n && w0.entities@[t].id == w0.entities@[j].follow.unwrap().entity
                    && w0.entities@[t].alive && w0.entities@[t].follow is None ==> {
                    let nx = w0.entities@[t].pos.x + w0.entities@[j].follow.unwrap().offset.x;
                    let ny = w0.entities@[t].pos.y + w0.entities@[j].follow.unwrap().offset.y;
                    w.entities@[j].pos == (if -COORD_LIMIT <= nx <= COORD_LIMIT && -COORD_LIMIT
                        <= ny <= COORD_LIMIT {
                        Vec2 { x: nx as i64, y: ny as i64 }
                    } else {
                        w0.entities@[j].pos
                    })
                },
        decreases n - i,
    {
        let ghost w_h = *w;
        let alive_i = w.entities[i].alive;
        let fl = w.entities[i].follow;
        match fl {
            Option::Some(f) => {
                if alive_i {
                    let target = w.find_alive(f.entity);
                    match target {
                        Option::Some(t) => {
                            proof {
                                assert(ent_wf(w.entities@[t as int]));
                                assert(ent_wf(w0.entities@[i as int]));
                                assert(w.entities@[i as int].follow == w0.entities@[i as int].follow);
                            }
                            let tp = w.entities[t].pos;
                            let np = Vec2 { x: tp.x + f.offset.x, y: tp.y + f.offset.y };
                            if np.x >= -crate::geom::COORD_LIMIT && np.x <= crate::geom::COORD_LIMIT
                                && np.y >= -crate::geom::COORD_LIMIT && np.y
                                <= crate::geom::COORD_LIMIT {
                                let ghost w_m = *w;
                                w.entities[i].pos = np;
                                proof {
                                    assert forall|j2: int| 0 <= j2 < n implies {
                                        let e2 = #[trigger] w.entities@[j2];
                                        let e1 = w_m.entities@[j2];
                                        e2.id == e1.id && ent_wf(e2) && claimed_of(e2)
                                            == claimed_of(e1) && (e2.alive && e2.pickup is Some
                                            ==> e1.alive && e2.pickup == e1.pickup)
                                    } by {
                                        if j2 != i as int {
                                            assert(w.entities@[j2] == w_m.entities@[j2]);
                                        }
                                    }
                                    lemma_wf_preserved(w_m, *w);
                                }
                            }
                        },
                        Option::None => {},
                    }
                }
            },
            Option::None => {},
        }
        proof {
            assert forall|j: int, t: int|
                #![trigger w0.entities@[j].follow, w0.entities@[t].id]
                0 <= j < i + 1 && w0.entities@[j].alive && w0.entities@[j].follow is Some && 0
                    <= t < n && w0.entities@[t].id == w0.entities@[j].follow.unwrap().entity
                    && w0.entities@[t].alive && w0.entities@[t].follow is None implies {
                let nx = w0.entities@[t].pos.x + w0.entities@[j].follow.unwrap().offset.x;
                let ny = w0.entities@[t].pos.y + w0.entities@[j].follow.unwrap().offset.y;
                w.entities@[j].pos == (if -COORD_LIMIT <= nx <= COORD_LIMIT && -COORD_LIMIT <= ny
                    <= COORD_LIMIT {
                    Vec2 { x: nx as i64, y: ny as i64 }
                } else {
                    w0.entities@[j].pos
                })
            } by {
                if j == i as int {
                    match fl {
                        Option::Some(f) => {
                            assert(f == w0.entities@[j].follow.unwrap());
                            assert(w_h.entities@[t].id == f.entity && w_h.entities@[t].alive);
                            assert(w_h.entities@[t].pos == w0.entities@[t].pos);
                        },
                        Option::None => {},
                    }
                } else {
                    if j != i as int {
                        assert(w.entities@[j].pos == w_h.entities@[j].pos);
                    }
                }
            }
        }
        i = i + 1;
    }
}

} // verus!
