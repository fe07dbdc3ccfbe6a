use vstd::prelude::*;
use crate::entity::Entity;
use crate::game::Input;
use crate::geom::{chebyshev, chebyshev_distance, CardinalDirection, Coord, Size, MAX_SIDE};
use crate::realtime::EXPLOSION_RADIUS;
use crate::shadowcast::{compute_field_of_view, field_of_view};
use crate::visibility::{fill_opacity, opacity_of};
use crate::world::{Disposition, Layer, World};

verus! {

/// Distance of a cell that the search did not reach.
pub const UNREACHED: u32 = 0xffff_ffff;
/// How far an NPC sees.
pub const NPC_VIEW_RADIUS: i64 = 8;
/// Farthest target an NPC fires at.
pub const NPC_FIRE_RANGE: u64 = 6;

/// Two row-major positions are one cardinal step apart.
pub open spec fn adjacent(size: Size, i: int, j: int) -> bool {
    let a = size.coord_of(i);
    let b = size.coord_of(j);
    (a.x == b.x && (a.y - b.y == 1 || b.y - a.y == 1)) || (a.y == b.y && (a.x - b.x == 1 || b.x
        - a.x == 1))
}

/// A reached cell other than the root has a neighbour one step closer, so
/// following decreasing distances always leads to the root.
pub open spec fn descends(size: Size, dist: Seq<u32>, i: int) -> bool {
    dist[i] != UNREACHED && dist[i] > 0 ==> exists|j: int|
        0 <= j < dist.len() && adjacent(size, i, j) && #[trigger] dist[j] + 1 == dist[i]
}

/// The distance field is rooted at `root` and every reached cell descends.
pub open spec fn field_ok(size: Size, dist: Seq<u32>, root: Option<Coord>) -> bool {
    &&& dist.len() == size.count()
    &&& forall|i: int| 0 <= i < dist.len() ==> #[trigger] descends(size, dist, i)
    &&& match root {
        Some(r) => size.contains(r) && dist[size.index_of(r)] == 0,
        None => forall|i: int| 0 <= i < dist.len() ==> #[trigger] dist[i] == UNREACHED,
    }
}

/// The direction an NPC wanders in for a random draw.
pub open spec fn wander_direction(roll: u64) -> CardinalDirection {
    if roll % 4 == 0 {
        CardinalDirection::North
    } else if roll % 4 == 1 {
        CardinalDirection::East
    } else if roll % 4 == 2 {
        CardinalDirection::South
    } else {
        CardinalDirection::West
    }
}

/// A cell an NPC can walk into: inside the grid, without a solid feature.
pub open spec fn walkable(w: World, c: Coord) -> bool {
    w.size.contains(c) && !w.spec_solid_at(c)
}

/// Every walkable neighbour of the cell at row-major position `i` is reached,
/// at most one step farther than `i`.
pub open spec fn closed_at(w: World, dist: Seq<u32>, i: int) -> bool {
    forall|dir: CardinalDirection| #[trigger]
        walkable(w, dir.spec_step(w.size.coord_of(i))) ==> dist[w.size.index_of(
            dir.spec_step(w.size.coord_of(i)),
        )] != UNREACHED && dist[w.size.index_of(dir.spec_step(w.size.coord_of(i)))] <= dist[i] + 1
}

/// Breadth-first order: distances along the queue never decrease, and none
/// exceeds the distance at `head` by more than one.
pub open spec fn layered(dist: Seq<u32>, queue: Seq<usize>, head: int) -> bool {
    &&& forall|j: int, k: int|
        0 <= j < k < queue.len() ==> dist[#[trigger] queue[j] as int] <= dist[#[trigger] queue[k] as int]
    &&& head < queue.len() ==> forall|k: int|
        0 <= k < queue.len() ==> dist[#[trigger] queue[k] as int] <= dist[queue[head] as int] + 1
}

/// A cell stays closed while reached cells stay reached.
pub proof fn lemma_closed_monotone(w: World, d0: Seq<u32>, d1: Seq<u32>, i: int)
    requires
        w.size.wf(),
        d0.len() == w.size.count(),
        d1.len() == d0.len(),
        0 <= i < d0.len(),
        d0[i] != UNREACHED,
        closed_at(w, d0, i),
        forall|j: int| 0 <= j < d0.len() && d0[j] != UNREACHED ==> #[trigger] d1[j] == d0[j],
    ensures
        closed_at(w, d1, i),
{
    assert forall|dir: CardinalDirection| #[trigger] walkable(w, dir.spec_step(w.size.coord_of(i))) implies d1[
        w.size.index_of(dir.spec_step(w.size.coord_of(i)))] != UNREACHED && d1[w.size.index_of(
        dir.spec_step(w.size.coord_of(i)),
    )] <= d1[i] + 1 by {
        crate::geom::lemma_index_coord(w.size, dir.spec_step(w.size.coord_of(i)));
    }
}

/// The search queue holds distinct reached cells, holds every reached cell,
/// and bounds every distance by its length.
pub open spec fn queue_ok(size: Size, dist: Seq<u32>, queue: Seq<usize>) -> bool {
    &&& forall|k: int| 0 <= k < queue.len() ==> #[trigger] queue[k] < size.count()
    &&& forall|k: int| 0 <= k < queue.len() ==> dist[#[trigger] queue[k] as int] != UNREACHED
    &&& forall|j: int, k: int| 0 <= j < k < queue.len() ==> #[trigger] queue[j] != #[trigger] queue[k]
    &&& forall|i: int| 0 <= i < dist.len() && dist[i] != UNREACHED ==> #[trigger] queue.contains(i as usize)
    &&& forall|i: int| 0 <= i < dist.len() && dist[i] != UNREACHED ==> #[trigger] dist[i] < queue.len()
}

/// A queue of distinct cells is no longer than the grid.
pub proof fn lemma_queue_bounded(size: Size, dist: Seq<u32>, queue: Seq<usize>)
    requires
        size.wf(),
        queue_ok(size, dist, queue),
    ensures
        queue.len() <= size.count(),
        size.count() <= MAX_SIDE * MAX_SIDE,
{
    crate::geom::lemma_count_bound(size);
    let t = queue.map_values(|v: usize| v as int);
    assert(t.no_duplicates()) by {
        assert forall|j: int, k: int| 0 <= j < t.len() && 0 <= k < t.len() && j != k implies t[j] != t[k] by {
            if j < k {
                assert(queue[j] != queue[k]);
            } else {
                assert(queue[k] != queue[j]);
            }
        }
    }
    t.unique_seq_to_set();
    vstd::set_lib::lemma_int_range(0, size.count() as int);
    assert(t.to_set().subset_of(vstd::set_lib::set_int_range(0, size.count() as int))) by {
        assert forall|v: int| t.to_set().contains(v) implies vstd::set_lib::set_int_range(
            0,
            size.count() as int,
        ).contains(v) by {
            assert(t.contains(v));
            let k = choose|k: int| 0 <= k < t.len() && t[k] == v;
            assert(queue[k] < size.count());
        }
    }
    vstd::set_lib::lemma_len_subset(t.to_set(), vstd::set_lib::set_int_range(0, size.count() as int));
}

/// Per-NPC memory.
#[derive(Clone, Copy, Debug, PartialEq, Eq, Structural)]
pub struct Agent {
    /// Where the NPC last saw the player.
    pub last_seen_player: Option<Coord>,
}

/// Scratch shared by every NPC in a turn: a breadth-first distance field
/// rooted at the player, and buffers for sight checks.
pub struct BehaviourContext {
    size: Size,
    dist: Vec<u32>,
    queue: Vec<usize>,
    opacity: Vec<u8>,
    seen: Vec<bool>,
    root: Option<Coord>,
}

impl BehaviourContext {
    pub closed spec fn spec_size(&self) -> Size {
        self.size
    }

    pub closed spec fn spec_dist(&self) -> Seq<u32> {
        self.dist@
    }

    pub closed spec fn spec_root(&self) -> Option<Coord> {
        self.root
    }

    pub open spec fn wf(&self) -> bool {
        &&& self.spec_size().wf()
        &&& field_ok(self.spec_size(), self.spec_dist(), self.spec_root())
    }

    pub fn new(size: Size) -> (r: BehaviourContext)
        requires
            size.wf(),
        ensures
            r.wf(),
            r.spec_size() == size,
            r.spec_root() is None,
    {
        let mut ctx = BehaviourContext {
            size,
            dist: Vec::new(),
            queue: Vec::new(),
            opacity: Vec::new(),
            seen: Vec::new(),
            root: None,
        };
        ctx.reset();
        ctx
    }

    fn reset(&mut self)
        requires
            old(self).size.wf(),
        ensures
            final(self).size == old(self).size,
            final(self).dist@.len() == old(self).size.count(),
            forall|i: int| 0 <= i < final(self).dist@.len() ==> #[trigger] final(self).dist@[i] == UNREACHED,
            final(self).root is None,
            final(self).wf(),
    {
        let n = self.size.num_cells();
        self.dist.clear();
        self.root = None;
        let mut i: usize = 0;
        while i < n
            invariant
                i <= n,
                n == self.size.count(),
                self.size == old(self).size,
                self.root is None,
                self.dist@.len() == i,
                forall|k: int| 0 <= k < i ==> #[trigger] self.dist@[k] == UNREACHED,
            decreases n - i,
        {
            self.dist.push(UNREACHED);
            i += 1;
        }
    }

    /// Distance of `c` from the player along walkable cells, or `UNREACHED`.
    pub fn distance(&self, c: Coord) -> (r: u32)
        requires
            self.wf(),
        ensures
            self.spec_size().contains(c) ==> r == self.spec_dist()[self.spec_size().index_of(c)],
            !self.spec_size().contains(c) ==> r == UNREACHED,
    {
        if self.size.is_valid(c) {
            self.dist[self.size.index(c)]
        } else {
            UNREACHED
        }
    }

    /// Rebuilds the distance field from the player's coordinate, searching
    /// breadth first through walkable cells (inside the grid, without a solid
    /// feature). Every reached cell other than the root has a neighbour one
    /// step closer, and every walkable neighbour of a reached cell is reached
    /// at most one step farther, so reached distances are the shortest.
    pub fn update(&mut self, player: Entity, w: &World)
        requires
            old(self).wf(),
            w.wf(),
            w.size == old(self).spec_size(),
        ensures
            final(self).wf(),
            final(self).spec_size() == old(self).spec_size(),
            final(self).spec_root() == w.spec_coord(player),
            forall|i: int|
                0 <= i < final(self).spec_dist().len() && final(self).spec_dist()[i] != UNREACHED
                    ==> #[trigger] closed_at(*w, final(self).spec_dist(), i),
    {
        self.reset();
        let root = match w.entity_coord(player) {
            Some(c) => c,
            None => {
                return ;
            },
        };
        proof {
            crate::geom::lemma_count_bound(self.size);
        }
        let n = self.size.num_cells();
        let ri = self.size.index(root);
        self.dist.set(ri, 0);
        self.root = Some(root);
        self.queue.clear();
        self.queue.push(ri);
        proof {
            assert forall|i: int| 0 <= i < n && self.dist@[i] != UNREACHED implies #[trigger] self.queue@.contains(
                i as usize,
            ) by {
                assert(i == ri);
                assert(self.queue@[0] == ri);
            }
            assert forall|i: int| 0 <= i < n implies #[trigger] descends(self.size, self.dist@, i) by {
                if i != ri {
                    assert(self.dist@[i] == UNREACHED);
                }
            }
        }
        let mut head: usize = 0;
        while head < self.queue.len()
            invariant
                n == self.size.count(),
                self.size == old(self).size,
                self.size.wf(),
                w.wf(),
                w.size == self.size,
                self.dist@.len() == n,
                head <= self.queue@.len(),
                self.root == Some(root),
                self.size.contains(root),
                self.dist@[self.size.index_of(root)] == 0,
                queue_ok(self.size, self.dist@, self.queue@),
                layered(self.dist@, self.queue@, head as int),
                forall|i: int| 0 <= i < n ==> #[trigger] descends(self.size, self.dist@, i),
                forall|k: int| 0 <= k < head ==> #[trigger] closed_at(*w, self.dist@, self.queue@[k] as int),
            decreases n - head,
        {
            proof {
                lemma_queue_bounded(self.size, self.dist@, self.queue@);
                crate::geom::lemma_index_coord(self.size, root);
            }
            let ci = self.queue[head];
            let c = self.size.coord(ci);
            let ghost d0 = self.dist@;
            let ghost q0 = self.queue@;
            self.visit(w, c, ci, head, CardinalDirection::North);
            let ghost d1 = self.dist@;
            self.visit(w, c, ci, head, CardinalDirection::East);
            let ghost d2 = self.dist@;
            self.visit(w, c, ci, head, CardinalDirection::South);
            let ghost d3 = self.dist@;
            self.visit(w, c, ci, head, CardinalDirection::West);
            proof {
                assert forall|i: int| 0 <= i < n && d0[i] != UNREACHED implies #[trigger] self.dist@[i]
                    == d0[i] by {
                    assert(d1[i] == d0[i]);
                    assert(d2[i] == d1[i]);
                    assert(d3[i] == d2[i]);
                }
                assert(self.dist@[ci as int] == d0[ci as int]);
                assert forall|dir: CardinalDirection| #[trigger] walkable(*w, dir.spec_step(c)) implies self.dist@[
                    w.size.index_of(dir.spec_step(c))] != UNREACHED && self.dist@[w.size.index_of(dir.spec_step(c))]
                    <= self.dist@[ci as int] + 1 by {
                    crate::geom::lemma_index_coord(self.size, dir.spec_step(c));
                    let j = w.size.index_of(dir.spec_step(c));
                    match dir {
                        CardinalDirection::North => {
                            assert(d1[j] != UNREACHED);
                            assert(d2[j] == d1[j]);
                            assert(d3[j] == d2[j]);
                        },
                        CardinalDirection::East => {
                            assert(d2[j] != UNREACHED);
                            assert(d3[j] == d2[j]);
                        },
                        CardinalDirection::South => {
                            assert(d3[j] != UNREACHED);
                        },
                        CardinalDirection::West => {},
                    }
                }
                assert(closed_at(*w, self.dist@, ci as int));
                assert forall|k: int| 0 <= k < head + 1 implies #[trigger] closed_at(
                    *w,
                    self.dist@,
                    self.queue@[k] as int,
                ) by {
                    if k < head {
                        assert(self.queue@[k] == q0[k]);
                        lemma_closed_monotone(*w, d0, self.dist@, q0[k] as int);
                    }
                }
                if head + 1 < self.queue@.len() {
                    assert forall|k: int| 0 <= k < self.queue@.len() implies self.dist@[#[trigger] self.queue@[k] as int]
                        <= self.dist@[self.queue@[head + 1] as int] + 1 by {
                        assert(self.dist@[self.queue@[head as int] as int] <= self.dist@[self.queue@[head + 1] as int]);
                    }
                }
            }
            head += 1;
        }
        proof {
            assert forall|i: int|
                0 <= i < self.dist@.len() && self.dist@[i] != UNREACHED implies #[trigger] closed_at(
                *w,
                self.dist@,
                i,
            ) by {
                assert(self.queue@.contains(i as usize));
                let k = choose|k: int| 0 <= k < self.queue@.len() && self.queue@[k] == i as usize;
                assert(closed_at(*w, self.dist@, self.queue@[k] as int));
            }
        }
    }

    /// Reaches the neighbour of `c` in direction `dir` with the distance of
    /// `c` plus one, and queues it, if it is walkable and not reached yet.
    fn visit(&mut self, w: &World, c: Coord, ci: usize, head: usize, dir: CardinalDirection)
        requires
            head < old(self).queue@.len(),
            old(self).queue@[head as int] == ci,
            layered(old(self).dist@, old(self).queue@, head as int),
            old(self).size.wf(),
            w.wf(),
            w.size == old(self).size,
            old(self).dist@.len() == old(self).size.count(),
            ci < old(self).size.count(),
            c == old(self).size.coord_of(ci as int),
            old(self).dist@[ci as int] != UNREACHED,
            queue_ok(old(self).size, old(self).dist@, old(self).queue@),
            forall|i: int|
                0 <= i < old(self).dist@.len() ==> #[trigger] descends(old(self).size, old(self).dist@, i),
        ensures
            final(self).size == old(self).size,
            final(self).root == old(self).root,
            final(self).dist@.len() == old(self).dist@.len(),
            queue_ok(final(self).size, final(self).dist@, final(self).queue@),
            old(self).queue@.len() <= final(self).queue@.len(),
            forall|k: int| 0 <= k < old(self).queue@.len() ==> #[trigger] final(self).queue@[k] == old(self).queue@[k],
            forall|i: int|
                0 <= i < old(self).dist@.len() && old(self).dist@[i] != UNREACHED ==> #[trigger] final(self).dist@[i]
                    == old(self).dist@[i],
            forall|i: int|
                0 <= i < final(self).dist@.len() ==> #[trigger] descends(final(self).size, final(self).dist@, i),
            walkable(*w, dir.spec_step(c)) ==> final(self).dist@[w.size.index_of(dir.spec_step(c))] != UNREACHED,
            walkable(*w, dir.spec_step(c)) ==> final(self).dist@[w.size.index_of(dir.spec_step(c))]
                <= old(self).dist@[ci as int] + 1,
            layered(final(self).dist@, final(self).queue@, head as int),
    {
        proof {
            lemma_queue_bounded(self.size, self.dist@, self.queue@);
            crate::geom::lemma_coord_index(self.size, ci as int);
        }
        let n = match dir.step(c) {
            Some(n) => n,
            None => {
                return ;
            },
        };
        if !self.size.is_valid(n) || w.is_solid_at(n) {
            return ;
        }
        let ni = self.size.index(n);
        if self.dist[ni] != UNREACHED {
            proof {
                assert(self.queue@.contains((ni as int) as usize));
                let k = choose|k: int| 0 <= k < self.queue@.len() && self.queue@[k] == ni;
                assert(self.dist@[self.queue@[k] as int] <= self.dist@[self.queue@[head as int] as int] + 1);
            }
            return ;
        }
        let ghost before = self.dist@;
        let ghost q0 = self.queue@;
        let d = self.dist[ci] + 1;
        self.dist.set(ni, d);
        self.queue.push(ni);
        proof {
            assert(adjacent(self.size, ni as int, ci as int));
            assert forall|i: int| 0 <= i < self.dist@.len() implies #[trigger] descends(
                self.size,
                self.dist@,
                i,
            ) by {
                if i == ni as int {
                    assert(self.dist@[ci as int] + 1 == self.dist@[i]);
                } else if before[i] != UNREACHED && before[i] > 0 {
                    assert(descends(self.size, before, i));
                    let j = choose|j: int|
                        0 <= j < before.len() && adjacent(self.size, i, j) && #[trigger] before[j] + 1
                            == before[i];
                    assert(self.dist@[j] == before[j]);
                }
            }
            assert(!q0.contains(ni)) by {
                if q0.contains(ni) {
                    let k = choose|k: int| 0 <= k < q0.len() && q0[k] == ni;
                    assert(before[q0[k] as int] != UNREACHED);
                }
            }
            assert forall|k: int| 0 <= k < self.queue@.len() implies self.dist@[#[trigger] self.queue@[k] as int]
                != UNREACHED by {
                if k < q0.len() {
                    assert(self.queue@[k] == q0[k]);
                }
            }
            assert forall|j: int, k: int|
                0 <= j < k < self.queue@.len() implies #[trigger] self.queue@[j] != #[trigger] self.queue@[k] by {
                if k == q0.len() {
                    assert(self.queue@[j] == q0[j]);
                    assert(q0.contains(q0[j]));
                } else {
                    assert(self.queue@[j] == q0[j]);
                    assert(self.queue@[k] == q0[k]);
                }
            }
            assert forall|i: int|
                0 <= i < self.dist@.len() && self.dist@[i] != UNREACHED implies #[trigger] self.queue@.contains(
                i as usize,
            ) by {
                if i == ni as int {
                    assert(self.queue@[q0.len() as int] == ni);
                } else {
                    assert(q0.contains(i as usize));
                    let k = choose|k: int| 0 <= k < q0.len() && q0[k] == i as usize;
                    assert(self.queue@[k] == q0[k]);
                }
            }
            assert forall|i: int|
                0 <= i < self.dist@.len() && self.dist@[i] != UNREACHED implies #[trigger] self.dist@[i]
                < self.queue@.len() by {
                if i != ni as int {
                    assert(before[i] != UNREACHED);
                }
            }
        }
    }
}


/// Whether stepping from `c` in `dir` is a legal walk that goes down the
/// distance field (`toward`) or up it to a reached cell (`!toward`).
pub open spec fn step_ok(w: World, dist: Seq<u32>, c: Coord, dir: CardinalDirection, toward: bool) -> bool {
    let n = dir.spec_step(c);
    &&& w.spec_can_enter(n, Layer::Character)
    &&& if toward {
        dist[w.size.index_of(n)] < dist[w.size.index_of(c)]
    } else {
        dist[w.size.index_of(n)] > dist[w.size.index_of(c)] && dist[w.size.index_of(n)] != UNREACHED
    }
}

/// Some cardinal step from `c` is `step_ok`.
pub open spec fn any_step_ok(w: World, dist: Seq<u32>, c: Coord, toward: bool) -> bool {
    step_ok(w, dist, c, CardinalDirection::North, toward) || step_ok(
        w,
        dist,
        c,
        CardinalDirection::East,
        toward,
    ) || step_ok(w, dist, c, CardinalDirection::South, toward) || step_ok(
        w,
        dist,
        c,
        CardinalDirection::West,
        toward,
    )
}

/// The first of north, east, south, west that is `step_ok`.
pub open spec fn first_step(w: World, dist: Seq<u32>, c: Coord, toward: bool) -> Option<CardinalDirection> {
    if step_ok(w, dist, c, CardinalDirection::North, toward) {
        Some(CardinalDirection::North)
    } else if step_ok(w, dist, c, CardinalDirection::East, toward) {
        Some(CardinalDirection::East)
    } else if step_ok(w, dist, c, CardinalDirection::South, toward) {
        Some(CardinalDirection::South)
    } else if step_ok(w, dist, c, CardinalDirection::West, toward) {
        Some(CardinalDirection::West)
    } else {
        None
    }
}

/// The action an NPC `e` takes, given the player's coordinate, the distance
/// field and a random draw (see `Agent::act`).
pub open spec fn npc_decision(w: World, e: Entity, player: Option<Coord>, dist: Seq<u32>, roll: u64) -> Option<Input> {
    if w.spec_coord(e) is None || w.npc.spec_get(e) is None {
        None
    } else {
        let c = w.spec_coord(e).unwrap();
        let d = w.npc.spec_get(e).unwrap();
        if player is Some && npc_sees(w, c, player.unwrap()) {
            let p = player.unwrap();
            if d == Disposition::Hostile && in_fire_range(c, p) {
                Some(Input::Fire(p))
            } else {
                match first_step(w, dist, c, d == Disposition::Hostile) {
                    Some(dir) => Some(Input::Walk(dir)),
                    None => None,
                }
            }
        } else {
            let dir = wander_direction(roll);
            if w.spec_can_enter(dir.spec_step(c), Layer::Character) {
                Some(Input::Walk(dir))
            } else {
                None
            }
        }
    }
}

/// Whether `to` is in sight of an NPC standing at `from`.
pub open spec fn npc_sees(w: World, from: Coord, to: Coord) -> bool {
    w.size.contains(to) && field_of_view(opacity_of(w), w.size, from, NPC_VIEW_RADIUS as int)[w.size.index_of(
        to,
    )]
}

impl BehaviourContext {
    fn try_step(&self, w: &World, c: Coord, dir: CardinalDirection, toward: bool) -> (r: bool)
        requires
            self.wf(),
            w.wf(),
            w.size == self.spec_size(),
            w.size.contains(c),
        ensures
            r == step_ok(*w, self.spec_dist(), c, dir, toward),
    {
        let n = match dir.step(c) {
            Some(n) => n,
            None => {
                return false;
            },
        };
        if !self.size.is_valid(n) || w.occupant_at(n, Layer::Character).is_some() || w.is_solid_at(n) {
            return false;
        }
        let dn = self.dist[self.size.index(n)];
        let dc = self.dist[self.size.index(c)];
        if toward {
            dn < dc
        } else {
            dn > dc && dn != UNREACHED
        }
    }

    /// The first of north, east, south, west that is `step_ok`.
    pub fn choose_step(&self, w: &World, c: Coord, toward: bool) -> (r: Option<CardinalDirection>)
        requires
            self.wf(),
            w.wf(),
            w.size == self.spec_size(),
            w.size.contains(c),
        ensures
            r == first_step(*w, self.spec_dist(), c, toward),
            r is Some <==> any_step_ok(*w, self.spec_dist(), c, toward),
            r matches Some(d) ==> step_ok(*w, self.spec_dist(), c, d, toward),
    {
        if self.try_step(w, c, CardinalDirection::North, toward) {
            Some(CardinalDirection::North)
        } else if self.try_step(w, c, CardinalDirection::East, toward) {
            Some(CardinalDirection::East)
        } else if self.try_step(w, c, CardinalDirection::South, toward) {
            Some(CardinalDirection::South)
        } else if self.try_step(w, c, CardinalDirection::West, toward) {
            Some(CardinalDirection::West)
        } else {
            None
        }
    }

    /// Whether an NPC at `from` sees `to`, by shadowcasting from `from`.
    pub fn can_see(&mut self, w: &World, from: Coord, to: Coord) -> (r: bool)
        requires
            old(self).wf(),
            w.wf(),
            w.size == old(self).spec_size(),
            w.size.contains(from),
        ensures
            final(self).wf(),
            final(self).spec_size() == old(self).spec_size(),
            final(self).spec_dist() == old(self).spec_dist(),
            final(self).spec_root() == old(self).spec_root(),
            r == npc_sees(*w, from, to),
    {
        fill_opacity(w, &mut self.opacity);
        compute_field_of_view(&self.opacity, self.size, from, NPC_VIEW_RADIUS, &mut self.seen);
        if self.size.is_valid(to) {
            self.seen[self.size.index(to)]
        } else {
            false
        }
    }
}

pub fn wander(roll: u64) -> (r: CardinalDirection)
    ensures
        r == wander_direction(roll),
{
    let k = roll % 4;
    if k == 0 {
        CardinalDirection::North
    } else if k == 1 {
        CardinalDirection::East
    } else if k == 2 {
        CardinalDirection::South
    } else {
        CardinalDirection::West
    }
}

/// Whether a hostile NPC at `c` fires at a player at `p`: far enough to stay
/// out of its own blast, near enough to aim.
pub open spec fn in_fire_range(c: Coord, p: Coord) -> bool {
    EXPLOSION_RADIUS < chebyshev(c, p) <= NPC_FIRE_RANGE
}

impl Agent {
    pub fn new() -> (r: Agent)
        ensures
            r.last_seen_player is None,
    {
        Agent { last_seen_player: None }
    }

    /// Chooses the action of the NPC `e`, given the player's coordinate and a
    /// random draw. Seeing the player, a hostile NPC fires when the player is
    /// in range, else steps down the distance field; a passive one steps up
    /// it, away from the player. Not seeing the player, either wanders in the
    /// direction that the draw selects. `None` means it waits.
    pub fn act(
        &mut self,
        e: Entity,
        w: &World,
        player: Option<Coord>,
        ctx: &mut BehaviourContext,
        roll: u64,
    ) -> (r: Option<Input>)
        requires
            old(ctx).wf(),
            w.wf(),
            w.size == old(ctx).spec_size(),
        ensures
            final(ctx).wf(),
            final(ctx).spec_size() == old(ctx).spec_size(),
            final(ctx).spec_dist() == old(ctx).spec_dist(),
            final(ctx).spec_root() == old(ctx).spec_root(),
            r == npc_decision(*w, e, player, old(ctx).spec_dist(), roll),
            w.spec_coord(e) is None || w.npc.spec_get(e) is None ==> r is None,
            w.spec_coord(e) is Some && w.npc.spec_get(e) is Some ==> {
                let c = w.spec_coord(e).unwrap();
                let d = w.npc.spec_get(e).unwrap();
                let dist = old(ctx).spec_dist();
                let sees = player matches Some(p) && npc_sees(*w, c, p);
                if sees {
                    let p = player.unwrap();
                    &&& final(self).last_seen_player == Some(p)
                    &&& if d == Disposition::Hostile && in_fire_range(c, p) {
                        r == Some(Input::Fire(p))
                    } else {
                        let toward = d == Disposition::Hostile;
                        &&& r == match first_step(*w, dist, c, toward) {
                            Some(dir) => Some(Input::Walk(dir)),
                            None => None,
                        }
                        &&& r is Some <==> any_step_ok(*w, dist, c, toward)
                        &&& r matches Some(i) ==> i matches Input::Walk(dir) && step_ok(
                            *w,
                            dist,
                            c,
                            dir,
                            toward,
                        )
                    }
                } else {
                    let dir = wander_direction(roll);
                    &&& *final(self) == *old(self)
                    &&& r == if w.spec_can_enter(dir.spec_step(c), Layer::Character) {
                        Some(Input::Walk(dir))
                    } else {
                        None
                    }
                }
            },
    {
        let c = match w.entity_coord(e) {
            Some(c) => c,
            None => {
                return None;
            },
        };
        let d = match w.npc.get(e) {
            Some(d) => d,
            None => {
                return None;
            },
        };
        proof {
            assert(w.location.spec_get(e) is Some);
        }
        let sees = match player {
            Some(p) => ctx.can_see(w, c, p),
            None => false,
        };
        if sees {
            let p = player.unwrap();
            self.last_seen_player = Some(p);
            if d == Disposition::Hostile {
                let range = chebyshev_distance(c, p);
                if (EXPLOSION_RADIUS as u64) < range && range <= NPC_FIRE_RANGE {
                    return Some(Input::Fire(p));
                }
            }
            let toward = d == Disposition::Hostile;
            match ctx.choose_step(w, c, toward) {
                Some(dir) => Some(Input::Walk(dir)),
                None => None,
            }
        } else {
            let dir = wander(roll);
            match dir.step(c) {
                Some(n) => {
                    if w.size.is_valid(n) && w.occupant_at(n, Layer::Character).is_none()
                        && !w.is_solid_at(n) {
                        Some(Input::Walk(dir))
                    } else {
                        None
                    }
                },
                None => None,
            }
        }
    }
}
} // verus!
