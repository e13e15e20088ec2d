//! The world: map, actor registry, executor and tick loop.
//!
//! The world maintains the occupancy invariant — at most one actor on a
//! coordinate, and only on walkable tiles — and the cache contract: a clean
//! viewshed holds exactly the specified visible sets, so every mutation of a
//! position must mark caches dirty. Movement dirties every cache
//! conservatively, the mover's own included.

use vstd::prelude::*;
use crate::actor::{Actor, Role, Viewshed};
use crate::decision::{decide, spec_choose_action, Action, MOVE_RETRY_LIMIT};
use crate::grid::{dist2, neighbor, spec_neighbor, Coordinate, Direction};
use crate::scheduler::{
    lemma_scheduler_step_preserves, sat_add64, scheduler_step, spec_active_of, TurnScheduler,
};
use crate::terrain::{walkable_pt, GridMap, Tile};
use crate::visibility::{compute_visible_tiles, contains_coord, visible};

verus! {

/// What the executor reports of one applied action.
#[derive(Clone, Copy, PartialEq, Eq, Structural, Debug)]
pub enum ActionOutcome {
    /// A movement step was committed to this coordinate.
    Moved(Coordinate),
    /// The step was rejected — destination missing, non-walkable or
    /// occupied — or no distance-reducing step existed; nothing changed.
    Blocked,
    /// The attack intent stands and the target exists; damage belongs to a
    /// combat collaborator.
    Attacked(u64),
    /// The target no longer exists; nothing changed.
    TargetGone,
    /// A shout at this identity; no state effect in this core.
    Shouted(u64),
}

/// Whether some actor other than the one at `k` stands on `c`.
pub open spec fn pos_taken_except(s: Seq<Actor>, c: Coordinate, k: int) -> bool {
    exists|j: int| 0 <= j < s.len() && j != k && (#[trigger] s[j]).pos == c
}

/// Whether some actor stands on `c`.
pub open spec fn pos_taken(s: Seq<Actor>, c: Coordinate) -> bool {
    exists|j: int| 0 <= j < s.len() && (#[trigger] s[j]).pos == c
}

/// The same actor with its cache (if any) marked stale.
pub open spec fn dirtied(a: Actor) -> Actor {
    match a.viewshed {
        Option::Some(v) => Actor { viewshed: Some(Viewshed { dirty: true, ..v }), ..a },
        Option::None => a,
    }
}

/// The registry after actor `k` stepped to `dest`: its position updated and
/// every cache conservatively marked stale.
pub open spec fn moved_actors(s: Seq<Actor>, k: int, dest: Coordinate) -> Seq<Actor> {
    s.map(
        |j: int, a: Actor|
            if j == k {
                dirtied(Actor { pos: dest, ..a })
            } else {
                dirtied(a)
            },
    )
}

/// What applying `Move(d)` by the actor at `k` means: a legal step is
/// committed and every cache dirtied; an illegal one is a silent no-op.
pub open spec fn move_semantics(w0: World, w1: World, k: int, d: Direction, out: ActionOutcome) -> bool {
    if move_allowed(w0.actors@, w0.map@, k, d) {
        match spec_neighbor(w0.actors@[k].pos, d) {
            Option::Some(dest) => out == ActionOutcome::Moved(dest) && w1.actors@ == moved_actors(
                w0.actors@,
                k,
                dest,
            ),
            Option::None => false,
        }
    } else {
        out == ActionOutcome::Blocked && w1 == w0
    }
}

/// The earliest registry index carrying identity `id`.
pub open spec fn find_actor(s: Seq<Actor>, id: u64) -> Option<int>
    decreases s.len(),
{
    if s.len() == 0 {
        None
    } else {
        match find_actor(s.drop_last(), id) {
            Option::Some(j) => Some(j),
            Option::None => if s[s.len() - 1].id == id {
                Some(s.len() - 1)
            } else {
                None
            },
        }
    }
}

/// What `find_actor` finds: the earliest match, or nothing when no actor
/// carries the identity.
pub proof fn lemma_find_actor_props(s: Seq<Actor>, id: u64)
    ensures
        match find_actor(s, id) {
            Option::None => forall|i: int| 0 <= i < s.len() ==> (#[trigger] s[i]).id != id,
            Option::Some(j) => 0 <= j < s.len() && s[j].id == id && forall|i: int|
                0 <= i < j ==> (#[trigger] s[i]).id != id,
        },
    decreases s.len(),
{
    if s.len() > 0 {
        lemma_find_actor_props(s.drop_last(), id);
        assert(forall|i: int| 0 <= i < s.len() - 1 ==> s.drop_last()[i] == #[trigger] s[i]);
    }
}

/// A clean cache of actor `i` holds exactly the specified visible sets.
pub open spec fn viewshed_ok(s: Seq<Actor>, m: Map<(int, int), Tile>, i: int) -> bool {
    match s[i].viewshed {
        Option::Some(v) => !v.dirty ==> {
            &&& (forall|c: Coordinate| #[trigger]
                v.visible_tiles@.contains(c) <==> visible(m, s[i].pos.pt(), c.pt(), v.radius as int))
            &&& (forall|id: u64| #[trigger]
                v.visible_actors@.contains(id) <==> exists|j: int|
                    0 <= j < s.len() && j != i && (#[trigger] s[j]).id == id && visible(
                        m,
                        s[i].pos.pt(),
                        s[j].pos.pt(),
                        v.radius as int,
                    ))
        },
        Option::None => true,
    }
}

/// Well-formed registry: unique identities, exclusive occupancy of walkable
/// tiles, and no stale cache passed off as clean.
pub open spec fn actors_wf(s: Seq<Actor>, m: Map<(int, int), Tile>) -> bool {
    &&& (forall|i: int, j: int|
        0 <= i < j < s.len() ==> (#[trigger] s[i]).id != (#[trigger] s[j]).id)
    &&& (forall|i: int, j: int|
        0 <= i < j < s.len() ==> (#[trigger] s[i]).pos != (#[trigger] s[j]).pos)
    &&& (forall|i: int| 0 <= i < s.len() ==> walkable_pt(m, (#[trigger] s[i]).pos.pt()))
    &&& (forall|i: int| 0 <= i < s.len() ==> #[trigger] viewshed_ok(s, m, i))
}

/// Caches stay truthful under a change that keeps every actor's identity
/// and position, and keeps actor `j`'s own position and cache.
proof fn lemma_viewshed_ok_congruence(
    s1: Seq<Actor>,
    s2: Seq<Actor>,
    m: Map<(int, int), Tile>,
    j: int,
)
    requires
        s1.len() == s2.len(),
        0 <= j < s1.len(),
        s2[j].viewshed == s1[j].viewshed,
        forall|k: int|
            0 <= k < s1.len() ==> (#[trigger] s2[k]).id == s1[k].id && s2[k].pos == s1[k].pos,
        viewshed_ok(s1, m, j),
    ensures
        viewshed_ok(s2, m, j),
{
    match s2[j].viewshed {
        Option::Some(v) => {
            if !v.dirty {
                assert(s2[j].pos == s1[j].pos);
                assert forall|id: u64| #[trigger] v.visible_actors@.contains(id) implies exists|
                    k: int,
                |
                    0 <= k < s2.len() && k != j && (#[trigger] s2[k]).id == id && visible(
                        m,
                        s2[j].pos.pt(),
                        s2[k].pos.pt(),
                        v.radius as int,
                    ) by {
                    let k = choose|k: int|
                        0 <= k < s1.len() && k != j && (#[trigger] s1[k]).id == id && visible(
                            m,
                            s1[j].pos.pt(),
                            s1[k].pos.pt(),
                            v.radius as int,
                        );
                    assert(s2[k].id == id && visible(
                        m,
                        s2[j].pos.pt(),
                        s2[k].pos.pt(),
                        v.radius as int,
                    ));
                }
                assert forall|id: u64|
                    (exists|k: int|
                        0 <= k < s2.len() && k != j && (#[trigger] s2[k]).id == id && visible(
                            m,
                            s2[j].pos.pt(),
                            s2[k].pos.pt(),
                            v.radius as int,
                        )) implies #[trigger] v.visible_actors@.contains(id) by {
                    let k = choose|k: int|
                        0 <= k < s2.len() && k != j && (#[trigger] s2[k]).id == id && visible(
                            m,
                            s2[j].pos.pt(),
                            s2[k].pos.pt(),
                            v.radius as int,
                        );
                    assert(s1[k].id == id && visible(
                        m,
                        s1[j].pos.pt(),
                        s1[k].pos.pt(),
                        v.radius as int,
                    ));
                }
            }
        },
        Option::None => {},
    }
}

/// Mark every actor's cache stale.
fn dirty_all(actors: &mut Vec<Actor>)
    ensures
        final(actors)@.len() == old(actors)@.len(),
        forall|i: int|
            0 <= i < old(actors)@.len() ==> final(actors)@[i] == dirtied(
                #[trigger] old(actors)@[i],
            ),
{
    let n = actors.len();
    let mut i: usize = 0;
    while i < n
        invariant
            n == actors@.len(),
            n == old(actors)@.len(),
            i <= n,
            forall|j: int| 0 <= j < i ==> actors@[j] == dirtied(#[trigger] old(actors)@[j]),
            forall|j: int| i <= j < n ==> actors@[j] == #[trigger] old(actors)@[j],
        decreases n - i,
    {
        if let Option::Some(v) = &mut actors[i].viewshed {
            v.dirty = true;
        }
        i = i + 1;
    }
}

/// The turn-based simulation state: the read-only map and the actor
/// registry, in spawn order.
pub struct World {
    pub map: GridMap,
    pub actors: Vec<Actor>,
    pub next_id: u64,
}

/// What one whole tick did.
#[derive(Clone, Copy, PartialEq, Eq, Structural, Debug)]
pub enum TickOutcome {
    /// Paused, or no actor reached the threshold; the tick simply advanced.
    Idle,
    /// The player is active; its action comes from the input collaborator.
    PlayerTurn(u64),
    /// A non-player actor acted: its identity, chosen action and outcome.
    Acted(u64, Action, ActionOutcome),
}

impl World {
    /// Well-formed world: see `actors_wf`; identities stay below the next
    /// identity to hand out.
    pub open spec fn wf(self) -> bool {
        &&& actors_wf(self.actors@, self.map@)
        &&& forall|i: int|
            0 <= i < self.actors@.len() ==> (#[trigger] self.actors@[i]).id < self.next_id
    }

    /// A world over `map` with no actors yet.
    pub fn new(map: GridMap) -> (w: World)
        ensures
            w.wf(),
            w.map == map,
            w.actors@.len() == 0,
            w.next_id == 0,
    {
        World { map, actors: Vec::new(), next_id: 0 }
    }

    /// Register a new actor at `pos`: walkable and unoccupied, or the spawn
    /// is refused. The new actor starts with an empty budget, a dirty
    /// viewshed of the given radius, and the next free identity; every
    /// existing cache is conservatively marked stale.
    pub fn spawn(&mut self, role: Role, pos: Coordinate, quickness: u32, radius: u16) -> (r:
        Option<u64>)
        requires
            old(self).wf(),
            old(self).next_id < u64::MAX,
        ensures
            final(self).wf(),
            final(self).map == old(self).map,
            match r {
                Option::Some(id) => {
                    &&& id == old(self).next_id
                    &&& final(self).next_id == old(self).next_id + 1
                    &&& walkable_pt(old(self).map@, pos.pt())
                    &&& !pos_taken(old(self).actors@, pos)
                    &&& final(self).actors@.len() == old(self).actors@.len() + 1
                    &&& (forall|i: int|
                        0 <= i < old(self).actors@.len() ==> final(self).actors@[i] == dirtied(
                            #[trigger] old(self).actors@[i],
                        ))
                    &&& final(self).actors@.last().id == id
                    &&& final(self).actors@.last().pos == pos
                    &&& final(self).actors@.last().role == role
                    &&& final(self).actors@.last().quickness == quickness
                    &&& final(self).actors@.last().budget == 0
                    &&& final(self).actors@.last().times_active == 0
                    &&& (final(self).actors@.last().viewshed matches Some(v) && v.radius == radius
                        && v.dirty)
                },
                Option::None => *final(self) == *old(self) && (!walkable_pt(
                    old(self).map@,
                    pos.pt(),
                ) || pos_taken(old(self).actors@, pos)),
            },
    {
        if !self.map.walkable_at(pos) {
            return None;
        }
        let mut j: usize = 0;
        let n = self.actors.len();
        while j < n
            invariant
                *self == *old(self),
                old(self).wf(),
                n == self.actors@.len(),
                j <= n,
                forall|i: int| 0 <= i < j ==> (#[trigger] self.actors@[i]).pos != pos,
            decreases n - j,
        {
            let p = self.actors[j].pos;
            if p.x == pos.x && p.y == pos.y {
                proof {
                    assert(self.actors@[j as int].pos == pos);
                }
                return None;
            }
            j = j + 1;
        }
        let ghost s0 = self.actors@;
        let id = self.next_id;
        self.next_id = id + 1;
        dirty_all(&mut self.actors);
        let v = Viewshed::new(radius);
        self.actors.push(
            Actor { id, pos, role, quickness, budget: 0, times_active: 0, viewshed: Some(v) },
        );
        proof {
            let s = self.actors@;
            let m = self.map@;
            assert forall|i: int| 0 <= i < s.len() implies #[trigger] viewshed_ok(s, m, i) by {
                if i < s.len() - 1 {
                    assert(s[i] == dirtied(s0[i]));
                }
            }
            assert forall|i: int| 0 <= i < s.len() implies walkable_pt(
                m,
                (#[trigger] s[i]).pos.pt(),
            ) by {
                if i < s.len() - 1 {
                    assert(s[i] == dirtied(s0[i]));
                    assert(s[i].pos == s0[i].pos);
                }
            }
            assert forall|i: int, j2: int| 0 <= i < j2 < s.len() implies (#[trigger] s[i]).pos != (
            #[trigger] s[j2]).pos by {
                assert(s[i] == dirtied(s0[i]));
                assert(s[i].pos == s0[i].pos);
                if j2 < s.len() - 1 {
                    assert(s[j2] == dirtied(s0[j2]));
                    assert(s[j2].pos == s0[j2].pos);
                }
            }
            assert forall|i: int, j2: int| 0 <= i < j2 < s.len() implies (#[trigger] s[i]).id != (
            #[trigger] s[j2]).id by {
                assert(s[i] == dirtied(s0[i]));
                assert(s[i].id == s0[i].id);
                if j2 < s.len() - 1 {
                    assert(s[j2] == dirtied(s0[j2]));
                    assert(s[j2].id == s0[j2].id);
                }
            }
            assert forall|i: int| 0 <= i < s.len() implies (#[trigger] s[i]).id < self.next_id by {
                if i < s.len() - 1 {
                    assert(s[i] == dirtied(s0[i]));
                    assert(s[i].id == s0[i].id);
                }
            }
        }
        Some(id)
    }

    /// Recompute actor `i`'s perception if its cache is stale. A clean cache
    /// is returned untouched — that is the performance contract of caching —
    /// and a blind actor has nothing to recompute.
    pub fn refresh_viewshed(&mut self, i: usize)
        requires
            old(self).wf(),
            i < old(self).actors@.len(),
        ensures
            final(self).wf(),
            final(self).map == old(self).map,
            final(self).next_id == old(self).next_id,
            final(self).actors@.len() == old(self).actors@.len(),
            forall|j: int|
                0 <= j < final(self).actors@.len() && j != i ==> final(self).actors@[j]
                    == #[trigger] old(self).actors@[j],
            (match old(self).actors@[i as int].viewshed {
                Option::Some(v0) => if v0.dirty {
                    final(self).actors@[i as int].viewshed matches Some(v) && !v.dirty && v.radius
                        == v0.radius
                } else {
                    *final(self) == *old(self)
                },
                Option::None => *final(self) == *old(self),
            }),
            final(self).actors@[i as int].id == old(self).actors@[i as int].id,
            final(self).actors@[i as int].pos == old(self).actors@[i as int].pos,
            final(self).actors@[i as int].role == old(self).actors@[i as int].role,
            final(self).actors@[i as int].budget == old(self).actors@[i as int].budget,
            final(self).actors@[i as int].times_active == old(self).actors@[i as int].times_active,
            final(self).actors@[i as int].quickness == old(self).actors@[i as int].quickness,
    {
        let pos = self.actors[i].pos;
        let (need, radius) = match &self.actors[i].viewshed {
            Option::Some(v) => (v.dirty, v.radius),
            Option::None => (false, 0u16),
        };
        if !need {
            return ;
        }
        let ghost s0 = self.actors@;
        let tiles = compute_visible_tiles(&self.map, pos, radius);
        let mut vis_ids: Vec<u64> = Vec::new();
        let n = self.actors.len();
        let mut j: usize = 0;
        while j < n
            invariant
                n == self.actors@.len(),
                j <= n,
                i < n,
                self.actors@ == s0,
                pos == s0[i as int].pos,
                forall|c: Coordinate| #[trigger]
                    tiles@.contains(c) <==> visible(self.map@, pos.pt(), c.pt(), radius as int),
                forall|id: u64| #[trigger]
                    vis_ids@.contains(id) <==> exists|k: int|
                        0 <= k < j && k != i && (#[trigger] s0[k]).id == id && visible(
                            self.map@,
                            s0[i as int].pos.pt(),
                            s0[k].pos.pt(),
                            radius as int,
                        ),
            decreases n - j,
        {
            let ghost ids0 = vis_ids@;
            if j != i {
                let p = self.actors[j].pos;
                if contains_coord(&tiles, p) {
                    vis_ids.push(self.actors[j].id);
                    proof {
                        assert(vis_ids@ == ids0.push(s0[j as int].id));
                        assert(vis_ids@[vis_ids@.len() - 1] == s0[j as int].id);
                        assert forall|id: u64| #[trigger]
                            vis_ids@.contains(id) <==> exists|k: int|
                                0 <= k < j + 1 && k != i && (#[trigger] s0[k]).id == id && visible(
                                    self.map@,
                                    s0[i as int].pos.pt(),
                                    s0[k].pos.pt(),
                                    radius as int,
                                ) by {
                            if vis_ids@.contains(id) {
                                let ix = choose|ix: int|
                                    0 <= ix < vis_ids@.len() && vis_ids@[ix] == id;
                                if ix < ids0.len() {
                                    assert(ids0[ix] == id);
                                    assert(ids0.contains(id));
                                } else {
                                    assert(id == s0[j as int].id);
                                    assert(visible(
                                        self.map@,
                                        s0[i as int].pos.pt(),
                                        s0[j as int].pos.pt(),
                                        radius as int,
                                    ));
                                }
                            }
                            if exists|k: int|
                                0 <= k < j + 1 && k != i && (#[trigger] s0[k]).id == id && visible(
                                    self.map@,
                                    s0[i as int].pos.pt(),
                                    s0[k].pos.pt(),
                                    radius as int,
                                ) {
                                let k = choose|k: int|
                                    0 <= k < j + 1 && k != i && (#[trigger] s0[k]).id == id
                                        && visible(
                                        self.map@,
                                        s0[i as int].pos.pt(),
                                        s0[k].pos.pt(),
                                        radius as int,
                                    );
                                if k < j {
                                    assert(ids0.contains(id));
                                    let ix = choose|ix: int|
                                        0 <= ix < ids0.len() && ids0[ix] == id;
                                    assert(vis_ids@[ix] == id);
                                } else {
                                    assert(vis_ids@[vis_ids@.len() - 1] == id);
                                }
                                assert(vis_ids@.contains(id));
                            }
                        }
                    }
                } else {
                    proof {
                        assert(!visible(
                            self.map@,
                            s0[i as int].pos.pt(),
                            s0[j as int].pos.pt(),
                            radius as int,
                        ));
                    }
                }
            }
            j = j + 1;
        }
        if let Option::Some(v) = &mut self.actors[i].viewshed {
            v.dirty = false;
            v.visible_tiles = tiles;
            v.visible_actors = vis_ids;
        }
        proof {
            let s = self.actors@;
            let m = self.map@;
            assert forall|k: int| 0 <= k < s.len() implies #[trigger] viewshed_ok(s, m, k) by {
                if k == i {
                    assert(s[k].pos == s0[k].pos);
                    match s[k].viewshed {
                        Option::Some(v) => {
                            assert(!v.dirty && v.radius == radius && v.visible_tiles@ == tiles@
                                && v.visible_actors@ == vis_ids@);
                            assert forall|id: u64| #[trigger]
                                v.visible_actors@.contains(id) implies exists|j2: int|
                                0 <= j2 < s.len() && j2 != k && (#[trigger] s[j2]).id == id
                                    && visible(m, s[k].pos.pt(), s[j2].pos.pt(), v.radius as int) by {
                                let j2 = choose|j2: int|
                                    0 <= j2 < s0.len() && j2 != i && (#[trigger] s0[j2]).id == id
                                        && visible(
                                        m,
                                        s0[i as int].pos.pt(),
                                        s0[j2].pos.pt(),
                                        radius as int,
                                    );
                                assert(s[j2] == s0[j2]);
                                assert(s[j2].id == id && visible(
                                    m,
                                    s[k].pos.pt(),
                                    s[j2].pos.pt(),
                                    v.radius as int,
                                ));
                            }
                            assert forall|id: u64|
                                (exists|j2: int|
                                    0 <= j2 < s.len() && j2 != k && (#[trigger] s[j2]).id == id
                                        && visible(
                                        m,
                                        s[k].pos.pt(),
                                        s[j2].pos.pt(),
                                        v.radius as int,
                                    )) implies #[trigger] v.visible_actors@.contains(id) by {
                                let j2 = choose|j2: int|
                                    0 <= j2 < s.len() && j2 != k && (#[trigger] s[j2]).id == id
                                        && visible(
                                        m,
                                        s[k].pos.pt(),
                                        s[j2].pos.pt(),
                                        v.radius as int,
                                    );
                                assert(s[j2] == s0[j2]);
                                assert(s0[j2].id == id && visible(
                                    m,
                                    s0[i as int].pos.pt(),
                                    s0[j2].pos.pt(),
                                    radius as int,
                                ));
                            }
                        },
                        Option::None => {},
                    }
                } else {
                    assert(s0[k] == s[k]);
                    assert(viewshed_ok(s0, m, k));
                    lemma_viewshed_ok_congruence(s0, s, m, k);
                }
            }
        }
    }

    /// Whether a step by the actor at `idx` in direction `d` may be
    /// committed; hands back the destination.
    fn check_step(&self, idx: usize, d: Direction) -> (r: Option<Coordinate>)
        requires
            idx < self.actors@.len(),
        ensures
            match r {
                Option::Some(dest) => move_allowed(self.actors@, self.map@, idx as int, d)
                    && spec_neighbor(self.actors@[idx as int].pos, d) == Some(dest),
                Option::None => !move_allowed(self.actors@, self.map@, idx as int, d),
            },
    {
        let pos = self.actors[idx].pos;
        match neighbor(pos, d) {
            Option::None => None,
            Option::Some(dest) => {
                if !self.map.walkable_at(dest) {
                    return None;
                }
                let n = self.actors.len();
                let mut j: usize = 0;
                while j < n
                    invariant
                        n == self.actors@.len(),
                        j <= n,
                        idx < n,
                        spec_neighbor(self.actors@[idx as int].pos, d) == Some(dest),
                        walkable_pt(self.map@, dest.pt()),
                        forall|k: int|
                            0 <= k < j && k != idx ==> (#[trigger] self.actors@[k]).pos != dest,
                    decreases n - j,
                {
                    if j != idx {
                        let p = self.actors[j].pos;
                        if p.x == dest.x && p.y == dest.y {
                            proof {
                                assert(self.actors@[j as int].pos == dest);
                            }
                            return None;
                        }
                    }
                    j = j + 1;
                }
                Some(dest)
            },
        }
    }

    /// Commit a single step of the actor at `idx` in direction `d`,
    /// re-validating it first: a stale or illegal step is silently rejected
    /// with no state change. A committed step moves the actor and marks
    /// every cache stale.
    fn do_step(&mut self, idx: usize, d: Direction) -> (out: ActionOutcome)
        requires
            old(self).wf(),
            idx < old(self).actors@.len(),
        ensures
            final(self).wf(),
            final(self).map == old(self).map,
            final(self).next_id == old(self).next_id,
            final(self).actors@.len() == old(self).actors@.len(),
            forall|j: int|
                0 <= j < final(self).actors@.len() && j != idx ==> (
                #[trigger] final(self).actors@[j]).pos == old(self).actors@[j].pos,
            move_allowed(old(self).actors@, old(self).map@, idx as int, d) ==> match spec_neighbor(
                old(self).actors@[idx as int].pos,
                d,
            ) {
                Option::Some(dest) => out == ActionOutcome::Moved(dest) && final(self).actors@
                    == moved_actors(old(self).actors@, idx as int, dest),
                Option::None => false,
            },
            !move_allowed(old(self).actors@, old(self).map@, idx as int, d) ==> out
                == ActionOutcome::Blocked && *final(self) == *old(self),
    {
        match self.check_step(idx, d) {
            Option::None => ActionOutcome::Blocked,
            Option::Some(dest) => {
                let ghost s0 = self.actors@;
                dirty_all(&mut self.actors);
                self.actors[idx].pos = dest;
                proof {
                    let s = self.actors@;
                    let m = self.map@;
                    assert(s =~= moved_actors(s0, idx as int, dest));
                    assert forall|j: int| 0 <= j < s.len() && j != idx implies (
                    #[trigger] s[j]).pos == s0[j].pos by {
                        assert(s[j] == dirtied(s0[j]));
                    }
                    assert forall|i: int| 0 <= i < s.len() implies #[trigger] viewshed_ok(
                        s,
                        m,
                        i,
                    ) by {
                        if i == idx {
                            assert(s[i] == dirtied(Actor { pos: dest, ..s0[i] }));
                        } else {
                            assert(s[i] == dirtied(s0[i]));
                        }
                    }
                    assert forall|i: int| 0 <= i < s.len() implies walkable_pt(
                        m,
                        (#[trigger] s[i]).pos.pt(),
                    ) by {
                        if i != idx {
                            assert(s[i] == dirtied(s0[i]));
                            assert(s[i].pos == s0[i].pos);
                        }
                    }
                    assert forall|i: int, j: int| 0 <= i < j < s.len() implies (
                    #[trigger] s[i]).pos != (#[trigger] s[j]).pos by {
                        assert(i != idx ==> s[i].pos == s0[i].pos);
                        assert(j != idx ==> s[j].pos == s0[j].pos);
                        if i != idx && j != idx {
                        } else if i == idx {
                            assert(!pos_taken_except(s0, dest, idx as int));
                            assert(s0[j].pos != dest);
                        } else {
                            assert(!pos_taken_except(s0, dest, idx as int));
                            assert(s0[i].pos != dest);
                        }
                    }
                    assert forall|i: int, j: int| 0 <= i < j < s.len() implies (
                    #[trigger] s[i]).id != (#[trigger] s[j]).id by {
                        assert(s[i].id == s0[i].id && s[j].id == s0[j].id);
                    }
                    assert forall|i: int| 0 <= i < s.len() implies (#[trigger] s[i]).id < self
                        .next_id by {
                        assert(s[i].id == s0[i].id);
                    }
                }
                ActionOutcome::Moved(dest)
            },
        }
    }

    /// Apply exactly one action of the actor at `idx`, atomically with
    /// respect to the occupancy invariant. A move is re-validated against
    /// the current state; a follow resolves to the best distance-reducing
    /// legal step towards the target, examined in the fixed direction
    /// order; attacks and shouts change no state here.
    pub fn apply_action(&mut self, idx: usize, action: Action) -> (out: ActionOutcome)
        requires
            old(self).wf(),
            idx < old(self).actors@.len(),
        ensures
            final(self).wf(),
            final(self).map == old(self).map,
            final(self).next_id == old(self).next_id,
            final(self).actors@.len() == old(self).actors@.len(),
            forall|j: int|
                0 <= j < final(self).actors@.len() && j != idx ==> (
                #[trigger] final(self).actors@[j]).pos == old(self).actors@[j].pos,
            match action {
                Action::Move(d) => move_semantics(*old(self), *final(self), idx as int, d, out),
                Action::Attack(t) => {
                    &&& *final(self) == *old(self)
                    &&& out == if find_actor(old(self).actors@, t) is Some {
                        ActionOutcome::Attacked(t)
                    } else {
                        ActionOutcome::TargetGone
                    }
                },
                Action::Follow(t) => match find_actor(old(self).actors@, t) {
                    Option::None => out == ActionOutcome::TargetGone && *final(self) == *old(
                        self,
                    ),
                    Option::Some(tj) => match best_step_toward(
                        old(self).actors@,
                        old(self).map@,
                        idx as int,
                        old(self).actors@[tj].pos,
                        8,
                    ) {
                        Option::None => out == ActionOutcome::Blocked && *final(self) == *old(
                            self,
                        ),
                        Option::Some(d) => match spec_neighbor(
                            old(self).actors@[idx as int].pos,
                            d,
                        ) {
                            Option::Some(dest) => out == ActionOutcome::Moved(dest)
                                && final(self).actors@ == moved_actors(
                                old(self).actors@,
                                idx as int,
                                dest,
                            ),
                            Option::None => false,
                        },
                    },
                },
                Action::Shout(t) => out == ActionOutcome::Shouted(t) && *final(self) == *old(
                    self,
                ),
            },
    {
        match action {
            Action::Move(d) => self.do_step(idx, d),
            Action::Attack(t) => {
                proof {
                    lemma_find_actor_props(self.actors@, t);
                }
                match self.find_actor_index(t) {
                    Option::Some(_) => ActionOutcome::Attacked(t),
                    Option::None => ActionOutcome::TargetGone,
                }
            },
            Action::Follow(t) => {
                match self.find_actor_index(t) {
                    Option::None => ActionOutcome::TargetGone,
                    Option::Some(tj) => {
                        proof {
                            lemma_find_actor_props(self.actors@, t);
                            assert(self.actors@.len() == vstd::std_specs::vec::spec_vec_len(
                                &self.actors,
                            ));
                            assert(find_actor(self.actors@, t) == Some(tj as int));
                        }
                        let target = self.actors[tj].pos;
                        proof {
                            assert(target == self.actors@[tj as int].pos);
                        }
                        let pos = self.actors[idx].pos;
                        let mut best: Option<(Direction, Coordinate)> = None;
                        let mut di: usize = 0;
                        while di < 8
                            invariant
                                idx < self.actors@.len(),
                                di <= 8,
                                pos == self.actors@[idx as int].pos,
                                match best {
                                    Option::None => best_step_toward(
                                        self.actors@,
                                        self.map@,
                                        idx as int,
                                        target,
                                        di as int,
                                    ) is None,
                                    Option::Some(bd) => best_step_toward(
                                        self.actors@,
                                        self.map@,
                                        idx as int,
                                        target,
                                        di as int,
                                    ) == Some(bd.0) && spec_neighbor(
                                        self.actors@[idx as int].pos,
                                        bd.0,
                                    ) == Some(bd.1) && move_allowed(
                                        self.actors@,
                                        self.map@,
                                        idx as int,
                                        bd.0,
                                    ),
                                },
                            decreases 8 - di,
                        {
                            let d = direction_by_index(di);
                            match self.check_step(idx, d) {
                                Option::Some(dest) => {
                                    let better = crate::grid::distance_squared(dest, target)
                                        < crate::grid::distance_squared(pos, target) && (match best {
                                        Option::None => true,
                                        Option::Some(b) => crate::grid::distance_squared(
                                            dest,
                                            target,
                                        ) < crate::grid::distance_squared(b.1, target),
                                    });
                                    if better {
                                        best = Some((d, dest));
                                    }
                                },
                                Option::None => {},
                            }
                            di = di + 1;
                        }
                        match best {
                            Option::None => ActionOutcome::Blocked,
                            Option::Some(b) => self.do_step(idx, b.0),
                        }
                    },
                }
            },
            Action::Shout(t) => ActionOutcome::Shouted(t),
        }
    }

    /// One whole tick, phases in strict order: the scheduler selects at
    /// most one active actor; that actor's perception is refreshed; a
    /// non-player actor chooses an action from the refreshed snapshot,
    /// applied at once, while the player's turn is handed back for the
    /// input collaborator to fill. An idle tick — paused, or nobody at the
    /// threshold — is not an error. `tick_semantics` pins the whole
    /// transition.
    #[verifier::rlimit(100)]
    #[verifier::spinoff_prover]
    pub fn run_tick(&mut self, sched: &mut TurnScheduler) -> (out: TickOutcome)
        requires
            old(self).wf(),
        ensures
            final(self).wf(),
            final(self).map == old(self).map,
            final(self).next_id == old(self).next_id,
            final(self).actors@.len() == old(self).actors@.len(),
            old(sched).paused ==> out == TickOutcome::Idle && final(self).actors@ == old(
                self,
            ).actors@ && *final(sched) == *old(sched),
            !old(sched).paused ==> final(sched).tick == sat_add64(old(sched).tick as int, 1),
            !old(sched).paused ==> tick_semantics(*old(self), *final(self), out),
            !old(sched).paused ==> forall|j: int|
                0 <= j < final(self).actors@.len() ==> {
                    let stepped = scheduler_step(old(self).actors@)[j];
                    &&& (#[trigger] final(self).actors@[j]).id == stepped.id
                    &&& final(self).actors@[j].role == stepped.role
                    &&& final(self).actors@[j].budget == stepped.budget
                    &&& final(self).actors@[j].times_active == stepped.times_active
                    &&& final(self).actors@[j].quickness == stepped.quickness
                },
            forall|j: int|
                0 <= j < final(self).actors@.len() && (match spec_active_of(old(self).actors@) {
                    Option::Some(k) => j != k,
                    Option::None => true,
                }) ==> (#[trigger] final(self).actors@[j]).pos == old(self).actors@[j].pos,
    {
        let ghost w0 = *old(self);
        let ghost s0 = self.actors@;
        let active = sched.advance(&mut self.actors);
        let ghost s1 = self.actors@;
        proof {
            if !old(sched).paused {
                lemma_scheduler_step_preserves(s0);
                let m = self.map@;
                assert forall|j: int| 0 <= j < s1.len() implies (#[trigger] s1[j]).id == s0[j].id
                    && s1[j].pos == s0[j].pos && s1[j].role == s0[j].role && s1[j].viewshed
                    == s0[j].viewshed by {}
                assert forall|k: int| 0 <= k < s1.len() implies #[trigger] viewshed_ok(
                    s1,
                    m,
                    k,
                ) by {
                    lemma_viewshed_ok_congruence(s0, s1, m, k);
                }
                assert forall|i: int, j: int| 0 <= i < j < s1.len() implies (#[trigger] s1[i]).pos
                    != (#[trigger] s1[j]).pos && (#[trigger] s1[i]).id != (#[trigger] s1[j]).id by {
                    assert(s1[i].pos == s0[i].pos && s1[j].pos == s0[j].pos);
                    assert(s1[i].id == s0[i].id && s1[j].id == s0[j].id);
                }
                assert forall|i: int| 0 <= i < s1.len() implies walkable_pt(
                    m,
                    (#[trigger] s1[i]).pos.pt(),
                ) && s1[i].id < self.next_id by {
                    assert(s1[i].pos == s0[i].pos && s1[i].id == s0[i].id);
                }
            }
        }
        match active {
            Option::None => TickOutcome::Idle,
            Option::Some(i) => {
                proof {
                    assert(!old(sched).paused);
                }
                self.refresh_viewshed(i);
                let ghost s2 = self.actors@;
                proof {
                    assert forall|j: int| 0 <= j < s2.len() implies (#[trigger] s2[j]).pos
                        == s0[j].pos && s2[j].id == s0[j].id && s2[j].role == s0[j].role by {
                        if j != i {
                            assert(s2[j] == s1[j]);
                        }
                    }
                    assert forall|j: int| 0 <= j < s2.len() implies (#[trigger] s2[j]).id == s1[
                        j
                    ].id && s2[j].role == s1[j].role && s2[j].budget == s1[j].budget && s2[
                        j
                    ].times_active == s1[j].times_active && s2[j].quickness == s1[j].quickness by {
                        if j != i {
                            assert(s2[j] == s1[j]);
                        }
                    }
                }
                let id = self.actors[i].id;
                match self.actors[i].role {
                    Role::Player => TickOutcome::PlayerTurn(id),
                    Role::NonPlayer => {
                        let pos = self.actors[i].pos;
                        let n = self.actors.len();
                        let mut others: Vec<(u64, Coordinate)> = Vec::new();
                        let mut j: usize = 0;
                        while j < n
                            invariant
                                j <= n,
                                n == self.actors@.len(),
                                i < n,
                                j <= i ==> others@ == id_pos_of(self.actors@).subrange(
                                    0,
                                    j as int,
                                ),
                                j > i ==> others@ == id_pos_of(self.actors@).subrange(0, i as int)
                                    + id_pos_of(self.actors@).subrange(i as int + 1, j as int),
                            decreases n - j,
                        {
                            if j != i {
                                others.push((self.actors[j].id, self.actors[j].pos));
                                proof {
                                    assert(id_pos_of(self.actors@)[j as int] == (
                                    self.actors@[j as int].id,
                                    self.actors@[j as int].pos,
                                    ));
                                    if j < i {
                                        assert(others@ =~= id_pos_of(self.actors@).subrange(
                                            0,
                                            j as int + 1,
                                        ));
                                    } else {
                                        assert(others@ =~= id_pos_of(self.actors@).subrange(
                                            0,
                                            i as int,
                                        ) + id_pos_of(self.actors@).subrange(
                                            i as int + 1,
                                            j as int + 1,
                                        ));
                                    }
                                }
                            } else {
                                proof {
                                    assert(others@ =~= id_pos_of(self.actors@).subrange(
                                        0,
                                        i as int,
                                    ) + id_pos_of(self.actors@).subrange(
                                        i as int + 1,
                                        i as int + 1,
                                    ));
                                }
                            }
                            j = j + 1;
                        }
                        proof {
                            assert(others@ == others_of(s2, i as int));
                        }
                        let mut player: Option<u64> = None;
                        let mut k: usize = 0;
                        while k < n
                            invariant
                                k <= n,
                                n == self.actors@.len(),
                                player == player_of(self.actors@.take(k as int)),
                            decreases n - k,
                        {
                            proof {
                                assert(self.actors@.take(k as int + 1).drop_last()
                                    =~= self.actors@.take(k as int));
                                assert(self.actors@.take(k as int + 1).last()
                                    == self.actors@[k as int]);
                            }
                            if player.is_none() {
                                match self.actors[k].role {
                                    Role::Player => {
                                        player = Some(self.actors[k].id);
                                    },
                                    Role::NonPlayer => {},
                                }
                            }
                            k = k + 1;
                        }
                        proof {
                            assert(self.actors@.take(n as int) =~= self.actors@);
                            assert(player == player_of(s2));
                        }
                        let empty_ids: Vec<u64> = Vec::new();
                        let ghost mut vis_seq: Seq<u64> = Seq::empty();
                        let act = {
                            let vis_ids: &Vec<u64> = match &self.actors[i].viewshed {
                                Option::Some(v) => &v.visible_actors,
                                Option::None => &empty_ids,
                            };
                            proof {
                                vis_seq = vis_ids@;
                            }
                            decide(id, pos, vis_ids, &others, &self.map, player)
                        };
                        proof {
                            let m = self.map@;
                            // the refreshed cache is exactly the current perception
                            assert forall|idv: u64|
                                vis_seq.contains(idv) <==> actor_sees(s2, m, i as int, idv) by {
                                match s2[i as int].viewshed {
                                    Option::Some(v) => {
                                        assert(viewshed_ok(s2, m, i as int));
                                    },
                                    Option::None => {},
                                }
                            }
                            // the tick's earlier phases kept every datum the
                            // decision reads
                            assert forall|idv: u64|
                                vis_seq.contains(idv) <==> actor_sees(s0, m, i as int, idv) by {
                                lemma_actor_sees_congruence(s2, s0, m, i as int, idv);
                            }
                            assert(id_pos_of(s2) =~= id_pos_of(s0));
                            assert(others@ == others_of(s0, i as int));
                            lemma_player_of_congruence(s2, s0);
                            assert(player == player_of(s0));
                            assert(id == s0[i as int].id && pos == s0[i as int].pos);
                            assert(w0.actors@ == s0 && w0.map@ == m);
                            let (wm, draws) = choose|wm: bool, draws: Seq<u8>|
                                draws.len() == MOVE_RETRY_LIMIT && act == spec_choose_action(
                                    id,
                                    pos,
                                    vis_seq,
                                    others@,
                                    m,
                                    player,
                                    wm,
                                    draws,
                                );
                            assert(act == spec_choose_action(
                                s0[i as int].id,
                                s0[i as int].pos,
                                vis_seq,
                                others_of(s0, i as int),
                                m,
                                player_of(s0),
                                wm,
                                draws,
                            ));
                            assert(decision_of_tick(w0, i as int, act));
                            match player_of(s0) {
                                Option::Some(p) => {
                                    if actor_sees(s0, m, i as int, p) {
                                        assert(vis_seq.contains(p));
                                        assert(act == Action::Follow(p));
                                    }
                                },
                                Option::None => {},
                            }
                            assert(follow_override_of_tick(w0, i as int, act));
                        }
                        let outcome = self.apply_action(i, act);
                        proof {
                            let m = self.map@;
                            let s3 = self.actors@;
                            assert forall|j: int| 0 <= j < s3.len() && j != i implies (
                            #[trigger] s3[j]).pos == s0[j].pos by {
                                assert(s3[j].pos == s2[j].pos);
                            }
                            match act {
                                Action::Move(d) => {
                                    lemma_move_allowed_congruence(s2, s0, m, i as int, d);
                                    if move_allowed(s0, m, i as int, d) {
                                        match spec_neighbor(s0[i as int].pos, d) {
                                            Option::Some(dest) => {
                                                assert(s3[i as int] == dirtied(
                                                    Actor { pos: dest, ..s2[i as int] },
                                                ));
                                            },
                                            Option::None => {},
                                        }
                                    }
                                },
                                Action::Attack(t) => {
                                    lemma_find_actor_congruence(s2, s0, t);
                                },
                                Action::Follow(t) => {
                                    lemma_find_actor_congruence(s2, s0, t);
                                    lemma_find_actor_props(s2, t);
                                    match find_actor(s0, t) {
                                        Option::Some(tj) => {
                                            assert(s2[tj].pos == s0[tj].pos);
                                            lemma_best_step_congruence(
                                                s2,
                                                s0,
                                                m,
                                                i as int,
                                                s0[tj].pos,
                                                8,
                                            );
                                            match best_step_toward(
                                                s0,
                                                m,
                                                i as int,
                                                s0[tj].pos,
                                                8,
                                            ) {
                                                Option::Some(d) => {
                                                    match spec_neighbor(s0[i as int].pos, d) {
                                                        Option::Some(dest) => {
                                                            assert(s3[i as int] == dirtied(
                                                                Actor {
                                                                    pos: dest,
                                                                    ..s2[i as int]
                                                                },
                                                            ));
                                                        },
                                                        Option::None => {},
                                                    }
                                                },
                                                Option::None => {},
                                            }
                                        },
                                        Option::None => {},
                                    }
                                },
                                Action::Shout(_) => {},
                            }
                            assert forall|j: int| 0 <= j < s3.len() implies (
                            #[trigger] s3[j]).id == s2[j].id && s3[j].role == s2[j].role && s3[
                                j
                            ].budget == s2[j].budget && s3[j].times_active == s2[j].times_active
                                && s3[j].quickness == s2[j].quickness by {
                                match act {
                                    Action::Move(d) => {
                                        if move_allowed(s2, m, i as int, d) {
                                            match spec_neighbor(s2[i as int].pos, d) {
                                                Option::Some(dest) => {
                                                    lemma_moved_actors_fields(
                                                        s2,
                                                        i as int,
                                                        dest,
                                                        j,
                                                    );
                                                },
                                                Option::None => {},
                                            }
                                        }
                                    },
                                    Action::Follow(t) => {
                                        match find_actor(s2, t) {
                                            Option::Some(tj) => {
                                                match best_step_toward(
                                                    s2,
                                                    m,
                                                    i as int,
                                                    s2[tj].pos,
                                                    8,
                                                ) {
                                                    Option::Some(d) => {
                                                        match spec_neighbor(
                                                            s2[i as int].pos,
                                                            d,
                                                        ) {
                                                            Option::Some(dest) => {
                                                                lemma_moved_actors_fields(
                                                                    s2,
                                                                    i as int,
                                                                    dest,
                                                                    j,
                                                                );
                                                            },
                                                            Option::None => {},
                                                        }
                                                    },
                                                    Option::None => {},
                                                }
                                            },
                                            Option::None => {},
                                        }
                                    },
                                    Action::Attack(_) => {},
                                    Action::Shout(_) => {},
                                }
                            }
                            assert(outcome_of_tick(w0, *self, i as int, act, outcome));
                        }
                        TickOutcome::Acted(id, act, outcome)
                    },
                }
            },
        }
    }

    /// Number of registered actors.
    pub fn actor_count(&self) -> (n: usize)
        ensures
            n == self.actors@.len(),
    {
        self.actors.len()
    }

    /// The identity of the actor at registry position `i`.
    pub fn actor_id(&self, i: usize) -> (id: u64)
        requires
            i < self.actors@.len(),
        ensures
            id == self.actors@[i as int].id,
    {
        self.actors[i].id
    }

    /// The current position of the actor at registry position `i` — the
    /// read-only query the presentation collaborator consumes.
    pub fn actor_position(&self, i: usize) -> (c: Coordinate)
        requires
            i < self.actors@.len(),
        ensures
            c == self.actors@[i as int].pos,
    {
        self.actors[i].pos
    }

    /// Whether some actor stands on `c`.
    pub fn occupied(&self, c: Coordinate) -> (r: bool)
        ensures
            r == pos_taken(self.actors@, c),
    {
        let n = self.actors.len();
        let mut j: usize = 0;
        while j < n
            invariant
                j <= n,
                n == self.actors@.len(),
                forall|k: int| 0 <= k < j ==> (#[trigger] self.actors@[k]).pos != c,
            decreases n - j,
        {
            let p = self.actors[j].pos;
            if p.x == c.x && p.y == c.y {
                proof {
                    assert(self.actors@[j as int].pos == c);
                }
                return true;
            }
            j = j + 1;
        }
        false
    }

    /// The cached visible tiles of the actor at `i`, handed out only while
    /// clean: a stale or missing cache yields nothing rather than stale
    /// sets. Reading a clean cache performs no recomputation.
    pub fn cached_visible_tiles(&self, i: usize) -> (r: Option<&Vec<Coordinate>>)
        requires
            i < self.actors@.len(),
        ensures
            match r {
                Option::Some(tiles) => self.actors@[i as int].viewshed matches Some(v) && !v.dirty
                    && tiles@ == v.visible_tiles@,
                Option::None => match self.actors@[i as int].viewshed {
                    Option::Some(v) => v.dirty,
                    Option::None => true,
                },
            },
    {
        match &self.actors[i].viewshed {
            Option::Some(v) => if v.dirty {
                None
            } else {
                Some(&v.visible_tiles)
            },
            Option::None => None,
        }
    }

    /// The cached visible actors of the actor at `i`, handed out only while
    /// clean, like `cached_visible_tiles`.
    pub fn cached_visible_actors(&self, i: usize) -> (r: Option<&Vec<u64>>)
        requires
            i < self.actors@.len(),
        ensures
            match r {
                Option::Some(ids) => self.actors@[i as int].viewshed matches Some(v) && !v.dirty
                    && ids@ == v.visible_actors@,
                Option::None => match self.actors@[i as int].viewshed {
                    Option::Some(v) => v.dirty,
                    Option::None => true,
                },
            },
    {
        match &self.actors[i].viewshed {
            Option::Some(v) => if v.dirty {
                None
            } else {
                Some(&v.visible_actors)
            },
            Option::None => None,
        }
    }

    /// The earliest registry index carrying identity `id`.
    fn find_actor_index(&self, id: u64) -> (r: Option<usize>)
        ensures
            r == match find_actor(self.actors@, id) {
                Option::None => None::<usize>,
                Option::Some(j) => Some(j as usize),
            },
    {
        proof {
            lemma_find_actor_props(self.actors@, id);
        }
        let n = self.actors.len();
        let mut i: usize = 0;
        while i < n
            invariant
                n == self.actors@.len(),
                i <= n,
                forall|k: int| 0 <= k < i ==> (#[trigger] self.actors@[k]).id != id,
            decreases n - i,
        {
            if self.actors[i].id == id {
                proof {
                    lemma_find_actor_props(self.actors@, id);
                }
                return Some(i);
            }
            i = i + 1;
        }
        proof {
            lemma_find_actor_props(self.actors@, id);
        }
        None
    }
}

/// The fixed order in which candidate directions are examined.
pub open spec fn direction_order() -> Seq<Direction> {
    seq![
        Direction::N,
        Direction::NE,
        Direction::E,
        Direction::SE,
        Direction::S,
        Direction::SW,
        Direction::W,
        Direction::NW,
    ]
}

/// The squared distance from the step destination to the target; only
/// meaningful where the step is allowed.
pub open spec fn step_dist2(s: Seq<Actor>, k: int, d: Direction, target: Coordinate) -> int {
    match spec_neighbor(s[k].pos, d) {
        Option::Some(dest) => dist2(dest.pt(), target.pt()),
        Option::None => 0,
    }
}

/// The best legal step towards `target` among the first `n` directions of
/// the fixed order: allowed and strictly distance-reducing, of minimal
/// resulting distance, the earliest in the order on a tie.
pub open spec fn best_step_toward(
    s: Seq<Actor>,
    m: Map<(int, int), Tile>,
    k: int,
    target: Coordinate,
    n: int,
) -> Option<Direction>
    decreases n,
{
    if n <= 0 {
        None
    } else {
        let prior = best_step_toward(s, m, k, target, n - 1);
        let d = direction_order()[n - 1];
        let take_d = move_allowed(s, m, k, d) && step_dist2(s, k, d, target) < dist2(
            s[k].pos.pt(),
            target.pt(),
        ) && (match prior {
            Option::None => true,
            Option::Some(pd) => step_dist2(s, k, d, target) < step_dist2(s, k, pd, target),
        });
        if take_d {
            Some(d)
        } else {
            prior
        }
    }
}

/// Whether a step from the position of the actor at `k` in direction `d`
/// lands on a coordinate present in the map, walkable, and free of every
/// other actor.
pub open spec fn move_allowed(
    s: Seq<Actor>,
    m: Map<(int, int), Tile>,
    k: int,
    d: Direction,
) -> bool {
    match spec_neighbor(s[k].pos, d) {
        Option::Some(dest) => walkable_pt(m, dest.pt()) && !pos_taken_except(s, dest, k),
        Option::None => false,
    }
}

/// The direction at position `i` of the fixed order.
fn direction_by_index(i: usize) -> (d: Direction)
    requires
        i < 8,
    ensures
        d == direction_order()[i as int],
{
    if i == 0 {
        Direction::N
    } else if i == 1 {
        Direction::NE
    } else if i == 2 {
        Direction::E
    } else if i == 3 {
        Direction::SE
    } else if i == 4 {
        Direction::S
    } else if i == 5 {
        Direction::SW
    } else if i == 6 {
        Direction::W
    } else {
        Direction::NW
    }
}

/// The `(identity, position)` pairs of a registry.
pub open spec fn id_pos_of(s: Seq<Actor>) -> Seq<(u64, Coordinate)> {
    s.map_values(|a: Actor| (a.id, a.pos))
}

/// The enumeration handed to the decision engine: the registry in spawn
/// order with the actor at `k` left out.
pub open spec fn others_of(s: Seq<Actor>, k: int) -> Seq<(u64, Coordinate)> {
    id_pos_of(s).subrange(0, k) + id_pos_of(s).subrange(k + 1, s.len() as int)
}

/// The designated player: the earliest actor carrying the player role.
pub open spec fn player_of(s: Seq<Actor>) -> Option<u64>
    decreases s.len(),
{
    if s.len() == 0 {
        None
    } else {
        match player_of(s.drop_last()) {
            Option::Some(p) => Some(p),
            Option::None => if s[s.len() - 1].role == Role::Player {
                Some(s[s.len() - 1].id)
            } else {
                None
            },
        }
    }
}

/// Actor `k` currently perceives identity `id`: some other actor carries it
/// and stands within `k`'s perception radius with a clear ray. A blind
/// actor perceives nobody.
pub open spec fn actor_sees(s: Seq<Actor>, m: Map<(int, int), Tile>, k: int, id: u64) -> bool {
    match s[k].viewshed {
        Option::Some(v) => exists|j: int|
            0 <= j < s.len() && j != k && (#[trigger] s[j]).id == id && visible(
                m,
                s[k].pos.pt(),
                s[j].pos.pt(),
                v.radius as int,
            ),
        Option::None => false,
    }
}

/// The action is the specified decision for the active actor's snapshot —
/// its own perception, the other actors in registry order, the map and the
/// designated player — under some drawn coin flip and some direction draws
/// of the fixed retry length.
pub open spec fn decision_of_tick(w0: World, k: int, a: Action) -> bool {
    exists|vis: Seq<u64>, will_move: bool, draws: Seq<u8>|
        (forall|idv: u64| vis.contains(idv) <==> actor_sees(w0.actors@, w0.map@, k, idv))
            && draws.len() == MOVE_RETRY_LIMIT && a == spec_choose_action(
            w0.actors@[k].id,
            w0.actors@[k].pos,
            vis,
            others_of(w0.actors@, k),
            w0.map@,
            player_of(w0.actors@),
            will_move,
            draws,
        )
}

/// Perceiving the player forces following it, whatever was drawn.
pub open spec fn follow_override_of_tick(w0: World, k: int, a: Action) -> bool {
    match player_of(w0.actors@) {
        Option::Some(p) => actor_sees(w0.actors@, w0.map@, k, p) ==> a == Action::Follow(p),
        Option::None => true,
    }
}

/// How the reported outcome and the active actor's final position relate to
/// the chosen action: exactly the executor's semantics, stated against the
/// pre-tick registry (whose positions the tick's earlier phases keep).
pub open spec fn outcome_of_tick(
    w0: World,
    w1: World,
    k: int,
    a: Action,
    o: ActionOutcome,
) -> bool {
    match a {
        Action::Move(d) => if move_allowed(w0.actors@, w0.map@, k, d) {
            match spec_neighbor(w0.actors@[k].pos, d) {
                Option::Some(dest) => o == ActionOutcome::Moved(dest) && w1.actors@[k].pos
                    == dest,
                Option::None => false,
            }
        } else {
            o == ActionOutcome::Blocked && w1.actors@[k].pos == w0.actors@[k].pos
        },
        Action::Attack(t) => w1.actors@[k].pos == w0.actors@[k].pos && o == if find_actor(
            w0.actors@,
            t,
        ) is Some {
            ActionOutcome::Attacked(t)
        } else {
            ActionOutcome::TargetGone
        },
        Action::Follow(t) => match find_actor(w0.actors@, t) {
            Option::None => o == ActionOutcome::TargetGone && w1.actors@[k].pos == w0.actors@[
                k
            ].pos,
            Option::Some(tj) => match best_step_toward(
                w0.actors@,
                w0.map@,
                k,
                w0.actors@[tj].pos,
                8,
            ) {
                Option::None => o == ActionOutcome::Blocked && w1.actors@[k].pos == w0.actors@[
                    k
                ].pos,
                Option::Some(d) => match spec_neighbor(w0.actors@[k].pos, d) {
                    Option::Some(dest) => o == ActionOutcome::Moved(dest) && w1.actors@[k].pos
                        == dest,
                    Option::None => false,
                },
            },
        },
        Action::Shout(t) => o == ActionOutcome::Shouted(t) && w1.actors@[k].pos == w0.actors@[
            k
        ].pos,
    }
}

/// What one unpaused tick means: nobody at the threshold is an idle tick;
/// an eligible player hands the turn back untouched; an eligible non-player
/// decides from its refreshed perception and has exactly that action
/// applied.
pub open spec fn tick_semantics(w0: World, w1: World, out: TickOutcome) -> bool {
    match spec_active_of(w0.actors@) {
        Option::None => out == TickOutcome::Idle && w1.actors@ == scheduler_step(w0.actors@),
        Option::Some(k) => {
            &&& (k as int) < w0.actors@.len()
            &&& (w0.actors@[k as int].role == Role::Player ==> out == TickOutcome::PlayerTurn(
                w0.actors@[k as int].id,
            ))
            &&& (w0.actors@[k as int].role == Role::NonPlayer ==> match out {
                TickOutcome::Acted(aid, a, o) => {
                    &&& aid == w0.actors@[k as int].id
                    &&& decision_of_tick(w0, k as int, a)
                    &&& follow_override_of_tick(w0, k as int, a)
                    &&& outcome_of_tick(w0, w1, k as int, a, o)
                },
                _ => false,
            })
        },
    }
}

/// `move_allowed` reads only the positions and the map.
proof fn lemma_move_allowed_congruence(
    s1: Seq<Actor>,
    s2: Seq<Actor>,
    m: Map<(int, int), Tile>,
    k: int,
    d: Direction,
)
    requires
        s1.len() == s2.len(),
        0 <= k < s1.len(),
        forall|j: int| 0 <= j < s1.len() ==> (#[trigger] s1[j]).pos == s2[j].pos,
    ensures
        move_allowed(s1, m, k, d) == move_allowed(s2, m, k, d),
{
    assert(s1[k].pos == s2[k].pos);
    match spec_neighbor(s1[k].pos, d) {
        Option::Some(dest) => {
            if pos_taken_except(s1, dest, k) {
                let j = choose|j: int|
                    0 <= j < s1.len() && j != k && (#[trigger] s1[j]).pos == dest;
                assert(s2[j].pos == dest);
            }
            if pos_taken_except(s2, dest, k) {
                let j = choose|j: int|
                    0 <= j < s2.len() && j != k && (#[trigger] s2[j]).pos == dest;
                assert(s1[j].pos == dest);
            }
        },
        Option::None => {},
    }
}

/// `best_step_toward` reads only the positions and the map.
proof fn lemma_best_step_congruence(
    s1: Seq<Actor>,
    s2: Seq<Actor>,
    m: Map<(int, int), Tile>,
    k: int,
    target: Coordinate,
    n: int,
)
    requires
        s1.len() == s2.len(),
        0 <= k < s1.len(),
        forall|j: int| 0 <= j < s1.len() ==> (#[trigger] s1[j]).pos == s2[j].pos,
    ensures
        best_step_toward(s1, m, k, target, n) == best_step_toward(s2, m, k, target, n),
    decreases n,
{
    assert(s1[k].pos == s2[k].pos);
    if n > 0 {
        lemma_best_step_congruence(s1, s2, m, k, target, n - 1);
        lemma_move_allowed_congruence(s1, s2, m, k, direction_order()[n - 1]);
    }
}

/// `find_actor` reads only the identities.
proof fn lemma_find_actor_congruence(s1: Seq<Actor>, s2: Seq<Actor>, id: u64)
    requires
        s1.len() == s2.len(),
        forall|j: int| 0 <= j < s1.len() ==> (#[trigger] s1[j]).id == s2[j].id,
    ensures
        find_actor(s1, id) == find_actor(s2, id),
    decreases s1.len(),
{
    if s1.len() > 0 {
        assert(forall|j: int|
            0 <= j < s1.len() - 1 ==> (#[trigger] s1.drop_last()[j]).id == s2.drop_last()[j].id);
        lemma_find_actor_congruence(s1.drop_last(), s2.drop_last(), id);
        assert(s1[s1.len() - 1].id == s2[s2.len() - 1].id);
    }
}

/// `player_of` reads only the identities and the roles.
proof fn lemma_player_of_congruence(s1: Seq<Actor>, s2: Seq<Actor>)
    requires
        s1.len() == s2.len(),
        forall|j: int|
            0 <= j < s1.len() ==> (#[trigger] s1[j]).id == s2[j].id && s1[j].role == s2[j].role,
    ensures
        player_of(s1) == player_of(s2),
    decreases s1.len(),
{
    if s1.len() > 0 {
        assert(forall|j: int|
            0 <= j < s1.len() - 1 ==> (#[trigger] s1.drop_last()[j]).id == s2.drop_last()[j].id
                && s1.drop_last()[j].role == s2.drop_last()[j].role);
        lemma_player_of_congruence(s1.drop_last(), s2.drop_last());
        assert(s1[s1.len() - 1].id == s2[s2.len() - 1].id && s1[s1.len() - 1].role == s2[s2.len()
            - 1].role);
    }
}

/// `actor_sees` reads the positions, the identities, and the perceiving
/// actor's radius.
proof fn lemma_actor_sees_congruence(
    s1: Seq<Actor>,
    s2: Seq<Actor>,
    m: Map<(int, int), Tile>,
    k: int,
    id: u64,
)
    requires
        s1.len() == s2.len(),
        0 <= k < s1.len(),
        forall|j: int|
            0 <= j < s1.len() ==> (#[trigger] s1[j]).pos == s2[j].pos && s1[j].id == s2[j].id,
        match (s1[k].viewshed, s2[k].viewshed) {
            (Option::Some(v1), Option::Some(v2)) => v1.radius == v2.radius,
            (Option::None, Option::None) => true,
            _ => false,
        },
    ensures
        actor_sees(s1, m, k, id) == actor_sees(s2, m, k, id),
{
    assert(s1[k].pos == s2[k].pos);
    match (s1[k].viewshed, s2[k].viewshed) {
        (Option::Some(v1), Option::Some(v2)) => {
            if actor_sees(s1, m, k, id) {
                let j = choose|j: int|
                    0 <= j < s1.len() && j != k && (#[trigger] s1[j]).id == id && visible(
                        m,
                        s1[k].pos.pt(),
                        s1[j].pos.pt(),
                        v1.radius as int,
                    );
                assert(s2[j].id == id && visible(
                    m,
                    s2[k].pos.pt(),
                    s2[j].pos.pt(),
                    v2.radius as int,
                ));
            }
            if actor_sees(s2, m, k, id) {
                let j = choose|j: int|
                    0 <= j < s2.len() && j != k && (#[trigger] s2[j]).id == id && visible(
                        m,
                        s2[k].pos.pt(),
                        s2[j].pos.pt(),
                        v2.radius as int,
                    );
                assert(s1[j].id == id && visible(
                    m,
                    s1[k].pos.pt(),
                    s1[j].pos.pt(),
                    v1.radius as int,
                ));
            }
        },
        _ => {},
    }
}

/// A committed step changes only the mover's position and the dirty
/// flags: every identity, role and scheduling datum stays.
proof fn lemma_moved_actors_fields(s: Seq<Actor>, k: int, dest: Coordinate, j: int)
    requires
        0 <= j < s.len(),
        0 <= k < s.len(),
    ensures
        moved_actors(s, k, dest)[j].id == s[j].id,
        moved_actors(s, k, dest)[j].role == s[j].role,
        moved_actors(s, k, dest)[j].budget == s[j].budget,
        moved_actors(s, k, dest)[j].times_active == s[j].times_active,
        moved_actors(s, k, dest)[j].quickness == s[j].quickness,
{
    if j == k {
        assert(moved_actors(s, k, dest)[j] == dirtied(Actor { pos: dest, ..s[j] }));
    } else {
        assert(moved_actors(s, k, dest)[j] == dirtied(s[j]));
    }
}

/// Law: in a well-formed world no two actors share a coordinate, and every
/// occupied coordinate is walkable — and the executor's contracts keep it
/// so across any sequence of applied actions.
pub proof fn lemma_occupancy_exclusive(w: World, i: int, j: int)
    requires
        w.wf(),
        0 <= i < w.actors@.len(),
        0 <= j < w.actors@.len(),
        i != j,
    ensures
        w.actors@[i].pos != w.actors@[j].pos,
        walkable_pt(w.map@, w.actors@[i].pos.pt()),
{
    if i < j {
        assert(w.actors@[i].pos != w.actors@[j].pos);
    } else {
        assert(w.actors@[j].pos != w.actors@[i].pos);
    }
}

/// Law: a clean cache is exact — whenever a well-formed world holds a
/// viewshed whose dirty flag is clear, its cached sets are precisely the
/// specified visible tiles and visible actors; a move marks every cache
/// dirty, so no stale set can be read as clean.
pub proof fn lemma_clean_cache_exact(w: World, i: int)
    requires
        w.wf(),
        0 <= i < w.actors@.len(),
        w.actors@[i].viewshed matches Some(v) && !v.dirty,
    ensures
        w.actors@[i].viewshed matches Some(v) ==> {
            &&& (forall|c: Coordinate| #[trigger]
                v.visible_tiles@.contains(c) <==> visible(
                    w.map@,
                    w.actors@[i].pos.pt(),
                    c.pt(),
                    v.radius as int,
                ))
            &&& (forall|id: u64| #[trigger]
                v.visible_actors@.contains(id) <==> exists|j: int|
                    0 <= j < w.actors@.len() && j != i && (#[trigger] w.actors@[j]).id == id
                        && visible(
                        w.map@,
                        w.actors@[i].pos.pt(),
                        w.actors@[j].pos.pt(),
                        v.radius as int,
                    ))
        },
{
    assert(viewshed_ok(w.actors@, w.map@, i));
}

} // verus!
