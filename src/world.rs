use vstd::prelude::*;
use crate::component::ComponentTable;
use crate::entity::{Entity, EntityAllocator};
use crate::geom::{Coord, Size};
use crate::realtime::Effect;

verus! {

/// One of the occupancy planes of a coordinate.
#[derive(Clone, Copy, Debug, PartialEq, Eq, Structural)]
pub enum Layer {
    Floor,
    Feature,
    Character,
    Particle,
}

/// Where an entity stands.
#[derive(Clone, Copy, Debug, PartialEq, Eq, Structural)]
pub struct Location {
    pub coord: Coord,
    pub layer: Layer,
}

/// The semantic kind of an entity, which fixes its solidity and opacity.
#[derive(Clone, Copy, Debug, PartialEq, Eq, Structural)]
pub enum Tile {
    Wall,
    Floor,
    Carpet,
    Player,
    Human,
    FormerHuman,
    Rocket,
    Explosion,
}

impl Tile {
    pub open spec fn spec_is_solid(self) -> bool {
        self == Tile::Wall
    }

    pub open spec fn spec_opacity(self) -> u8 {
        if self == Tile::Wall {
            255
        } else {
            0
        }
    }

    pub fn is_solid(self) -> (r: bool)
        ensures
            r == self.spec_is_solid(),
    {
        match self {
            Tile::Wall => true,
            _ => false,
        }
    }

    pub fn opacity(self) -> (r: u8)
        ensures
            r == self.spec_opacity(),
    {
        match self {
            Tile::Wall => 255,
            _ => 0,
        }
    }
}

/// Health of a character; it is alive while `current > 0`.
#[derive(Clone, Copy, Debug, PartialEq, Eq, Structural)]
pub struct HitPoints {
    pub current: u32,
    pub max: u32,
}

/// How an NPC treats the player.
#[derive(Clone, Copy, Debug, PartialEq, Eq, Structural)]
pub enum Disposition {
    /// Keeps its distance and wanders; turns hostile once hurt.
    Passive,
    /// Closes in on the player and attacks.
    Hostile,
}

/// A colour with 8 bits per channel.
#[derive(Clone, Copy, Debug, PartialEq, Eq, Structural)]
pub struct Rgb24 {
    pub r: u8,
    pub g: u8,
    pub b: u8,
}

/// A light source attached to an entity.
#[derive(Clone, Copy, Debug, PartialEq, Eq, Structural)]
pub struct Light {
    pub colour: Rgb24,
    pub intensity: u8,
    pub range: u32,
}

/// The entities standing at one coordinate, one per layer.
#[derive(Clone, Copy, Debug, PartialEq, Eq, Structural)]
pub struct SpatialCell {
    pub floor: Option<Entity>,
    pub feature: Option<Entity>,
    pub character: Option<Entity>,
    pub particle: Option<Entity>,
}

impl SpatialCell {
    pub open spec fn at(self, l: Layer) -> Option<Entity> {
        match l {
            Layer::Floor => self.floor,
            Layer::Feature => self.feature,
            Layer::Character => self.character,
            Layer::Particle => self.particle,
        }
    }

    pub open spec fn with(self, l: Layer, v: Option<Entity>) -> SpatialCell {
        match l {
            Layer::Floor => SpatialCell { floor: v, ..self },
            Layer::Feature => SpatialCell { feature: v, ..self },
            Layer::Character => SpatialCell { character: v, ..self },
            Layer::Particle => SpatialCell { particle: v, ..self },
        }
    }

    pub fn empty() -> (r: SpatialCell)
        ensures
            forall|l: Layer| #[trigger] r.at(l) is None,
    {
        SpatialCell { floor: None, feature: None, character: None, particle: None }
    }

    pub fn get(&self, l: Layer) -> (r: Option<Entity>)
        ensures
            r == self.at(l),
    {
        match l {
            Layer::Floor => self.floor,
            Layer::Feature => self.feature,
            Layer::Character => self.character,
            Layer::Particle => self.particle,
        }
    }

    pub fn set(&mut self, l: Layer, v: Option<Entity>)
        ensures
            *final(self) == old(self).with(l, v),
    {
        match l {
            Layer::Floor => self.floor = v,
            Layer::Feature => self.feature = v,
            Layer::Character => self.character = v,
            Layer::Particle => self.particle = v,
        }
    }
}

/// Exclusive owner of the entities, their components and the spatial index.
/// Locations are authoritative; `cells` is an index derived from them.
pub struct World {
    pub size: Size,
    pub allocator: EntityAllocator,
    pub tile: ComponentTable<Tile>,
    pub location: ComponentTable<Location>,
    pub hit_points: ComponentTable<HitPoints>,
    pub npc: ComponentTable<Disposition>,
    pub light: ComponentTable<Light>,
    pub blocks_gameplay: ComponentTable<()>,
    pub blood: ComponentTable<()>,
    pub realtime: ComponentTable<Effect>,
    pub cells: Vec<SpatialCell>,
}

impl World {
    pub open spec fn tables_wf(&self) -> bool {
        &&& self.allocator.wf()
        &&& self.tile.wf()
        &&& self.location.wf()
        &&& self.hit_points.wf()
        &&& self.npc.wf()
        &&& self.light.wf()
        &&& self.blocks_gameplay.wf()
        &&& self.blood.wf()
        &&& self.realtime.wf()
    }

    /// Every occupant recorded in the index stands where its location says.
    pub open spec fn index_sound(&self) -> bool {
        forall|i: int, l: Layer|
            0 <= i < self.cells@.len() && (#[trigger] self.cells@[i].at(l)) is Some ==> self.location.spec_get(
                self.cells@[i].at(l).unwrap(),
            ) == Some(Location { coord: self.size.coord_of(i), layer: l })
    }

    /// Every located entity is alive and recorded in the index at its location.
    pub open spec fn index_complete(&self) -> bool {
        forall|e: Entity| #[trigger]
            self.location.spec_get(e) is Some ==> {
                let loc = self.location.spec_get(e).unwrap();
                &&& self.allocator.alive(e)
                &&& self.size.contains(loc.coord)
                &&& self.cells@[self.size.index_of(loc.coord)].at(loc.layer) == Some(e)
            }
    }

    pub open spec fn wf(&self) -> bool {
        &&& self.size.wf()
        &&& self.cells@.len() == self.size.count()
        &&& self.tables_wf()
        &&& self.index_sound()
        &&& self.index_complete()
    }

    /// The entity standing at an in-bounds coordinate and layer.
    pub open spec fn spec_occupant(&self, c: Coord, l: Layer) -> Option<Entity> {
        self.cells@[self.size.index_of(c)].at(l)
    }

    pub fn new(size: Size) -> (r: World)
        requires
            size.wf(),
        ensures
            r.wf(),
            r.size == size,
            forall|e: Entity| !r.allocator.alive(e),
            forall|e: Entity| #[trigger] r.location.spec_get(e) is None,
            r.allocator.slot_count() == 0,
            forall|c: Coord, l: Layer| r.size.contains(c) ==> #[trigger] r.spec_occupant(c, l) is None,
    {
        let n = size.num_cells();
        let mut cells: Vec<SpatialCell> = Vec::new();
        let mut i: usize = 0;
        while i < n
            invariant
                i <= n,
                cells@.len() == i,
                forall|k: int, l: Layer| 0 <= k < i ==> (#[trigger] cells@[k].at(l)) is None,
            decreases n - i,
        {
            cells.push(SpatialCell::empty());
            i += 1;
        }
        proof {
            assert forall|c: Coord, l: Layer| size.contains(c) implies #[trigger] cells@[size.index_of(c)].at(l)
                is None by {
                crate::geom::lemma_index_coord(size, c);
            }
        }
        World {
            size,
            allocator: EntityAllocator::new(),
            tile: ComponentTable::new(),
            location: ComponentTable::new(),
            hit_points: ComponentTable::new(),
            npc: ComponentTable::new(),
            light: ComponentTable::new(),
            blocks_gameplay: ComponentTable::new(),
            blood: ComponentTable::new(),
            realtime: ComponentTable::new(),
            cells,
        }
    }

    /// The occupant of a coordinate and layer; `None` outside the grid.
    pub fn occupant_at(&self, c: Coord, l: Layer) -> (r: Option<Entity>)
        requires
            self.wf(),
        ensures
            self.size.contains(c) ==> r == self.spec_occupant(c, l),
            !self.size.contains(c) ==> r is None,
    {
        if self.size.is_valid(c) {
            let i = self.size.index(c);
            self.cells[i].get(l)
        } else {
            None
        }
    }

    /// Records `e` at `loc` in both the location table and the index.
    fn place(&mut self, e: Entity, loc: Location)
        requires
            old(self).wf(),
            old(self).allocator.alive(e),
            old(self).location.spec_get(e) is None,
            old(self).size.contains(loc.coord),
            old(self).spec_occupant(loc.coord, loc.layer) is None,
        ensures
            final(self).wf(),
            final(self).location.spec_get(e) == Some(loc),
            forall|x: Entity|
                x != e ==> #[trigger] final(self).location.spec_get(x) == old(self).location.spec_get(
                    x,
                ),
            final(self).size == old(self).size,
            final(self).allocator == old(self).allocator,
            final(self).tile == old(self).tile,
            final(self).hit_points == old(self).hit_points,
            final(self).npc == old(self).npc,
            final(self).light == old(self).light,
            final(self).blocks_gameplay == old(self).blocks_gameplay,
            final(self).blood == old(self).blood,
            final(self).realtime == old(self).realtime,
    {
        let ghost pre = *self;
        let i = self.size.index(loc.coord);
        proof {
            // no other generation of this index holds a location
            assert forall|x: Entity| x.index == e.index && x != e implies #[trigger]
                pre.location.spec_get(x) is None by {
                if pre.location.spec_get(x) is Some {
                    pre.allocator.lemma_unique_generation(x, e);
                }
            }
        }
        self.location.insert(e, loc);
        let mut cell = self.cells[i];
        cell.set(loc.layer, Some(e));
        self.cells.set(i, cell);
        proof {
            assert forall|k: int, l: Layer|
                0 <= k < self.cells@.len() && (#[trigger] self.cells@[k].at(l)) is Some implies self.location.spec_get(
                self.cells@[k].at(l).unwrap(),
            ) == Some(Location { coord: self.size.coord_of(k), layer: l }) by {
                if k == i && l == loc.layer {
                } else {
                    let x = pre.cells@[k].at(l).unwrap();
                    assert(pre.cells@[k].at(l) == self.cells@[k].at(l));
                    if x == e {
                        assert(pre.location.spec_get(e) is Some);
                    }
                    if x.index == e.index && x != e {
                        assert(pre.location.spec_get(x) is None);
                    }
                }
            }
            assert forall|x: Entity| #[trigger] self.location.spec_get(x) is Some implies {
                let lx = self.location.spec_get(x).unwrap();
                &&& self.allocator.alive(x)
                &&& self.size.contains(lx.coord)
                &&& self.cells@[self.size.index_of(lx.coord)].at(lx.layer) == Some(x)
            } by {
                if x != e {
                    let lx = pre.location.spec_get(x).unwrap();
                    crate::geom::lemma_index_coord(self.size, lx.coord);
                    if self.size.index_of(lx.coord) == i as int && lx.layer == loc.layer {
                        assert(pre.cells@[i as int].at(loc.layer) == Some(x));
                    }
                }
            }
        }
    }

    /// Removes `e` from the location table and the index.
    fn unplace(&mut self, e: Entity)
        requires
            old(self).wf(),
        ensures
            final(self).wf(),
            final(self).location.spec_get(e) is None,
            forall|x: Entity|
                x != e ==> #[trigger] final(self).location.spec_get(x) == old(self).location.spec_get(
                    x,
                ),
            final(self).size == old(self).size,
            final(self).allocator == old(self).allocator,
            final(self).tile == old(self).tile,
            final(self).hit_points == old(self).hit_points,
            final(self).npc == old(self).npc,
            final(self).light == old(self).light,
            final(self).blocks_gameplay == old(self).blocks_gameplay,
            final(self).blood == old(self).blood,
            final(self).realtime == old(self).realtime,
    {
        let ghost pre = *self;
        match self.location.get(e) {
            None => {},
            Some(loc) => {
                let i = self.size.index(loc.coord);
                self.location.remove(e);
                let mut cell = self.cells[i];
                cell.set(loc.layer, None);
                self.cells.set(i, cell);
                proof {
                    assert forall|k: int, l: Layer|
                        0 <= k < self.cells@.len() && (#[trigger] self.cells@[k].at(l)) is Some implies self.location.spec_get(
                        self.cells@[k].at(l).unwrap(),
                    ) == Some(Location { coord: self.size.coord_of(k), layer: l }) by {
                        if k == i as int {
                            assert(l != loc.layer);
                            assert(self.cells@[k] == pre.cells@[k].with(loc.layer, None));
                        } else {
                            assert(self.cells@[k] == pre.cells@[k]);
                        }
                        assert(pre.cells@[k].at(l) == self.cells@[k].at(l));
                        let x = pre.cells@[k].at(l).unwrap();
                        if x == e {
                            crate::geom::lemma_coord_index(self.size, k);
                        }
                    }
                    assert forall|x: Entity| #[trigger] self.location.spec_get(x) is Some implies {
                        let lx = self.location.spec_get(x).unwrap();
                        &&& self.allocator.alive(x)
                        &&& self.size.contains(lx.coord)
                        &&& self.cells@[self.size.index_of(lx.coord)].at(lx.layer) == Some(x)
                    } by {
                        let lx = pre.location.spec_get(x).unwrap();
                        assert(pre.location.spec_get(x) is Some);
                        assert(x != e);
                        let j = self.size.index_of(lx.coord);
                        crate::geom::lemma_index_coord(self.size, lx.coord);
                        if j == i as int {
                            assert(self.cells@[j] == pre.cells@[j].with(loc.layer, None));
                            if lx.layer == loc.layer {
                                assert(pre.cells@[i as int].at(loc.layer) == Some(x));
                                assert(pre.cells@[i as int].at(loc.layer) == Some(e));
                            }
                        } else {
                            assert(self.cells@[j] == pre.cells@[j]);
                        }
                    }
                }
            },
        }
    }
}


/// A character's position and health, as reported to the caller.
#[derive(Clone, Copy, Debug, PartialEq, Eq, Structural)]
pub struct CharacterInfo {
    pub coord: Coord,
    pub hit_points: HitPoints,
}

/// What the render collaborator needs to draw one located entity.
#[derive(Clone, Copy, Debug, PartialEq, Eq, Structural)]
pub struct ToRenderEntity {
    pub coord: Coord,
    pub layer: Layer,
    pub tile: Tile,
    pub fade: Option<u8>,
    pub colour_hint: Option<Rgb24>,
    pub blood: bool,
}

/// Hit points a freshly spawned player has.
pub const PLAYER_HIT_POINTS: u32 = 20;
/// Hit points a freshly spawned NPC has.
pub const NPC_HIT_POINTS: u32 = 10;

impl World {
    /// Whether a solid feature stands at an in-bounds coordinate.
    pub open spec fn spec_solid_at(&self, c: Coord) -> bool {
        match self.spec_occupant(c, Layer::Feature) {
            Some(f) => match self.tile.spec_get(f) {
                Some(t) => t.spec_is_solid(),
                None => false,
            },
            None => false,
        }
    }

    /// Whether the feature at an in-bounds coordinate is a wall.
    pub open spec fn spec_wall_at(&self, c: Coord) -> bool {
        match self.spec_occupant(c, Layer::Feature) {
            Some(f) => self.tile.spec_get(f) == Some(Tile::Wall),
            None => false,
        }
    }

    /// Opacity of an in-bounds coordinate: that of its feature, else 0.
    pub open spec fn spec_opacity_at(&self, c: Coord) -> u8 {
        match self.spec_occupant(c, Layer::Feature) {
            Some(f) => match self.tile.spec_get(f) {
                Some(t) => t.spec_opacity(),
                None => 0,
            },
            None => 0,
        }
    }

    /// Whether a walk onto `c` at layer `l` is possible.
    pub open spec fn spec_can_enter(&self, c: Coord, l: Layer) -> bool {
        &&& self.size.contains(c)
        &&& self.spec_occupant(c, l) is None
        &&& !self.spec_solid_at(c)
    }

    pub open spec fn spec_coord(&self, e: Entity) -> Option<Coord> {
        match self.location.spec_get(e) {
            Some(l) => Some(l.coord),
            None => None,
        }
    }

    pub fn entity_exists(&self, e: Entity) -> (r: bool)
        requires
            self.wf(),
        ensures
            r == self.allocator.alive(e),
    {
        self.allocator.is_alive(e)
    }

    pub fn entity_coord(&self, e: Entity) -> (r: Option<Coord>)
        ensures
            r == self.spec_coord(e),
    {
        match self.location.get(e) {
            Some(l) => Some(l.coord),
            None => None,
        }
    }

    pub fn size(&self) -> (r: Size)
        ensures
            r == self.size,
    {
        self.size
    }

    /// How the NPC `e` treats the player, if `e` is an NPC.
    pub fn entity_npc(&self, e: Entity) -> (r: Option<Disposition>)
        ensures
            r == self.npc.spec_get(e),
    {
        self.npc.get(e)
    }

    /// Whether a solid feature stands at `c`; `false` outside the grid.
    pub fn is_solid_at(&self, c: Coord) -> (r: bool)
        requires
            self.wf(),
        ensures
            r == (self.size.contains(c) && self.spec_solid_at(c)),
    {
        match self.occupant_at(c, Layer::Feature) {
            Some(f) => match self.tile.get(f) {
                Some(t) => t.is_solid(),
                None => false,
            },
            None => false,
        }
    }

    /// Opacity at `c` on a 0 to 255 scale; 0 outside the grid.
    pub fn opacity_at(&self, c: Coord) -> (r: u8)
        requires
            self.wf(),
        ensures
            r == (if self.size.contains(c) {
                self.spec_opacity_at(c)
            } else {
                0
            }),
    {
        match self.occupant_at(c, Layer::Feature) {
            Some(f) => match self.tile.get(f) {
                Some(t) => t.opacity(),
                None => 0,
            },
            None => 0,
        }
    }

    /// Whether a wall stands at `c`; `false` outside the grid.
    pub fn is_wall_at_coord(&self, c: Coord) -> (r: bool)
        requires
            self.wf(),
        ensures
            r == (self.size.contains(c) && self.spec_wall_at(c)),
    {
        match self.occupant_at(c, Layer::Feature) {
            Some(f) => match self.tile.get(f) {
                Some(t) => t == Tile::Wall,
                None => false,
            },
            None => false,
        }
    }

    /// `items` are the lights of the located entities `src`, with their
    /// coordinates, and the indices of `src` strictly increase.
    pub open spec fn light_records_of(&self, src: Seq<Entity>, items: Seq<(Coord, Light)>) -> bool {
        &&& src.len() == items.len()
        &&& forall|k: int|
            0 <= k < src.len() ==> #[trigger] self.light.spec_get(src[k]) == Some(items[k].1) && self.spec_coord(
                src[k],
            ) == Some(items[k].0)
        &&& forall|j: int, k: int| 0 <= j < k < src.len() ==> src[j].index < src[k].index
    }

    proof fn lemma_light_records_push(&self, src: Seq<Entity>, items: Seq<(Coord, Light)>, e: Entity, item: (Coord, Light))
        requires
            self.light_records_of(src, items),
            self.light.spec_get(e) == Some(item.1),
            self.spec_coord(e) == Some(item.0),
            forall|k: int| 0 <= k < src.len() ==> src[k].index < e.index,
        ensures
            self.light_records_of(src.push(e), items.push(item)),
    {
        let s2 = src.push(e);
        let i2 = items.push(item);
        assert forall|k: int| 0 <= k < s2.len() implies #[trigger] self.light.spec_get(s2[k]) == Some(i2[k].1)
            && self.spec_coord(s2[k]) == Some(i2[k].0) by {
            if k < src.len() {
                assert(s2[k] == src[k]);
                assert(i2[k] == items[k]);
            }
        }
        assert forall|j: int, k: int| 0 <= j < k < s2.len() implies s2[j].index < s2[k].index by {
            assert(s2[j] == src[j]);
            if k < src.len() {
                assert(s2[k] == src[k]);
            }
        }
    }

    /// `item` is a light of some located entity, with that entity's coordinate.
    pub open spec fn is_light_record(&self, item: (Coord, Light)) -> bool {
        exists|e: Entity|
            #![trigger self.light.spec_get(e)]
            self.light.spec_get(e) == Some(item.1) && self.spec_coord(e) == Some(item.0)
    }

    /// Whether an NPC stands at `c`; `false` outside the grid.
    pub fn is_npc_at_coord(&self, c: Coord) -> (r: bool)
        requires
            self.wf(),
        ensures
            r == (self.size.contains(c) && self.spec_occupant(c, Layer::Character) is Some
                && self.npc.spec_get(self.spec_occupant(c, Layer::Character).unwrap()) is Some),
    {
        match self.occupant_at(c, Layer::Character) {
            Some(e) => self.npc.contains(e),
            None => false,
        }
    }

    /// Every located light with its coordinate, in increasing order of entity
    /// index.
    pub fn all_lights_by_coord(&self) -> (r: Vec<(Coord, Light)>)
        requires
            self.wf(),
        ensures
            forall|k: int|
                0 <= k < r@.len() ==> self.is_light_record(#[trigger] r@[k]),
            forall|e: Entity|
                #[trigger] self.light.spec_get(e) is Some && self.location.spec_get(e) is Some ==> r@.contains(
                    (self.spec_coord(e).unwrap(), self.light.spec_get(e).unwrap()),
                ),
            exists|src: Seq<Entity>| #[trigger] self.light_records_of(src, r@),
    {
        let es = self.light.entities();
        let mut out: Vec<(Coord, Light)> = Vec::new();
        let ghost mut src: Seq<Entity> = Seq::empty();
        let mut i: usize = 0;
        while i < es.len()
            invariant
                i <= es@.len(),
                forall|k: int| 0 <= k < es@.len() ==> (#[trigger] self.light.spec_get(es@[k])) is Some,
                forall|e: Entity| self.light.spec_get(e) is Some ==> es@.contains(e),
                forall|k: int|
                    0 <= k < out@.len() ==> self.is_light_record(#[trigger] out@[k]),
                forall|k: int|
                    0 <= k < i && self.location.spec_get(es@[k]) is Some ==> out@.contains(
                        (self.spec_coord(es@[k]).unwrap(), self.light.spec_get(es@[k]).unwrap()),
                    ),
                forall|j: int, k: int| 0 <= j < k < es@.len() ==> es@[j].index < es@[k].index,
                self.light_records_of(src, out@),
                forall|k: int| 0 <= k < src.len() ==> exists|m: int| 0 <= m < i && es@[m] == #[trigger] src[k],
            decreases es.len() - i,
        {
            let e = es[i];
            let l = self.light.get(e).unwrap();
            let ghost prev = out@;
            match self.entity_coord(e) {
                Some(c) => {
                    out.push((c, l));
                    proof {
                        let src0 = src;
                        src = src.push(e);
                        assert forall|k: int| 0 <= k < src0.len() implies src0[k].index < e.index by {
                            let m = choose|m: int| 0 <= m < i && es@[m] == src0[k];
                        }
                        assert(out@ == prev.push((c, l)));
                        self.lemma_light_records_push(src0, prev, e, (c, l));
                        assert forall|k: int| 0 <= k < src.len() implies exists|m: int|
                            0 <= m < i + 1 && es@[m] == #[trigger] src[k] by {
                            if k < src0.len() {
                                let m = choose|m: int| 0 <= m < i && es@[m] == src0[k];
                                assert(es@[m] == src[k]);
                            } else {
                                assert(es@[i as int] == src[k]);
                            }
                        }
                        assert(out@[out@.len() - 1] == (c, l));
                        assert forall|k: int|
                            0 <= k < out@.len() implies self.is_light_record(#[trigger] out@[k]) by {
                            if k < prev.len() {
                                assert(out@[k] == prev[k]);
                            } else {
                                assert(self.light.spec_get(e) == Some(out@[k].1));
                            }
                        }
                        assert forall|k: int|
                            0 <= k < i + 1 && self.location.spec_get(es@[k]) is Some implies out@.contains(
                            (self.spec_coord(es@[k]).unwrap(), self.light.spec_get(es@[k]).unwrap()),
                        ) by {
                            if k < i {
                                let m = choose|m: int|
                                    0 <= m < prev.len() && prev[m] == (
                                        self.spec_coord(es@[k]).unwrap(),
                                        self.light.spec_get(es@[k]).unwrap(),
                                    );
                                assert(out@[m] == prev[m]);
                            } else {
                                assert(out@[out@.len() - 1] == (
                                    self.spec_coord(es@[k]).unwrap(),
                                    self.light.spec_get(es@[k]).unwrap(),
                                ));
                            }
                        }
                    }
                },
                None => {
                    proof {
                        assert forall|k: int| 0 <= k < src.len() implies exists|m: int|
                            0 <= m < i + 1 && es@[m] == #[trigger] src[k] by {
                            let m = choose|m: int| 0 <= m < i && es@[m] == src[k];
                        }
                    }
                },
            }
            i += 1;
        }
        proof {
            assert forall|e: Entity|
                #[trigger] self.light.spec_get(e) is Some && self.location.spec_get(e) is Some implies out@.contains(
                (self.spec_coord(e).unwrap(), self.light.spec_get(e).unwrap()),
            ) by {
                assert(es@.contains(e));
                let k = choose|k: int| 0 <= k < es@.len() && es@[k] == e;
                assert(self.location.spec_get(es@[k]) is Some);
            }
        }
        out
    }

    /// Position and health of a character, if it is located and has hit points.
    pub fn character_info(&self, e: Entity) -> (r: Option<CharacterInfo>)
        ensures
            r is Some <==> (self.location.spec_get(e) is Some && self.hit_points.spec_get(e) is Some),
            r matches Some(info) ==> Some(info.coord) == self.spec_coord(e) && Some(info.hit_points)
                == self.hit_points.spec_get(e),
    {
        match self.location.get(e) {
            Some(l) => match self.hit_points.get(e) {
                Some(hp) => Some(CharacterInfo { coord: l.coord, hit_points: hp }),
                None => None,
            },
            None => None,
        }
    }

    /// Whether any entity carries the gameplay-blocking tag.
    pub fn is_gameplay_blocked(&self) -> (r: bool)
        requires
            self.wf(),
        ensures
            r == (exists|e: Entity| #[trigger] self.blocks_gameplay.spec_get(e) is Some),
    {
        !self.blocks_gameplay.is_empty()
    }

    /// Creates an entity of kind `tile` at `loc`. Fails, changing nothing, when
    /// the coordinate is outside the grid, the slot is taken, or no handle is left.
    pub fn spawn_at(&mut self, loc: Location, tile: Tile) -> (r: Option<Entity>)
        requires
            old(self).wf(),
        ensures
            final(self).wf(),
            final(self).size == old(self).size,
            r is None ==> final(self).location == old(self).location && final(self).cells
                == old(self).cells && final(self).tile == old(self).tile,
            r is Some <==> (old(self).size.contains(loc.coord) && old(self).spec_occupant(
                loc.coord,
                loc.layer,
            ) is None && !old(self).allocator.is_full()),
            !old(self).size.contains(loc.coord) ==> r is None,
            old(self).size.contains(loc.coord) && old(self).spec_occupant(loc.coord, loc.layer)
                is Some ==> r is None,
            issued_kept(*old(self), *final(self)),
            final(self).allocator.slot_count() <= old(self).allocator.slot_count() + 1,
            r matches Some(e) ==> {
                &&& !old(self).allocator.alive(e)
                &&& !old(self).allocator.issued(e)
                &&& final(self).allocator.alive(e)
                &&& final(self).location.spec_get(e) == Some(loc)
                &&& final(self).tile.spec_get(e) == Some(tile)
            },
            forall|x: Entity|
                r != Some(x) ==> #[trigger] final(self).location.spec_get(x) == old(
                    self,
                ).location.spec_get(x),
            forall|x: Entity|
                r != Some(x) ==> #[trigger] final(self).allocator.alive(x) == old(self).allocator.alive(x),
            forall|x: Entity|
                old(self).allocator.alive(x) ==> #[trigger] final(self).tile.spec_get(x) == old(
                    self,
                ).tile.spec_get(x),
            final(self).hit_points == old(self).hit_points,
            final(self).npc == old(self).npc,
            final(self).light == old(self).light,
            final(self).blocks_gameplay == old(self).blocks_gameplay,
            final(self).blood == old(self).blood,
            final(self).realtime == old(self).realtime,
    {
        if !self.size.is_valid(loc.coord) {
            return None;
        }
        if self.occupant_at(loc.coord, loc.layer).is_some() {
            return None;
        }
        let ghost pre = *self;
        match self.allocator.spawn() {
            None => None,
            Some(e) => {
                proof {
                    if self.location.spec_get(e) is Some {
                        assert(pre.location.spec_get(e) is Some);
                    }
                }
                self.place(e, loc);
                self.tile.insert(e, tile);
                proof {
                    assert forall|x: Entity| pre.allocator.alive(x) implies #[trigger] self.tile.spec_get(x)
                        == pre.tile.spec_get(x) by {
                        if x.index == e.index {
                            assert(self.allocator.alive(x));
                            self.allocator.lemma_unique_generation(x, e);
                        }
                    }
                }
                Some(e)
            },
        }
    }

    /// Moves a located entity to `dest` within its layer. Fails, changing
    /// nothing, when `dest` is outside the grid, holds a solid feature, or
    /// already has an occupant on that layer.
    pub fn move_to(&mut self, e: Entity, dest: Coord) -> (r: bool)
        requires
            old(self).wf(),
            old(self).location.spec_get(e) is Some,
        ensures
            final(self).wf(),
            r == old(self).spec_can_enter(dest, old(self).location.spec_get(e).unwrap().layer),
            !r ==> *final(self) == *old(self),
            r ==> final(self).location.spec_get(e) == Some(
                Location { coord: dest, layer: old(self).location.spec_get(e).unwrap().layer },
            ),
            forall|x: Entity|
                x != e ==> #[trigger] final(self).location.spec_get(x) == old(self).location.spec_get(
                    x,
                ),
            final(self).size == old(self).size,
            final(self).allocator == old(self).allocator,
            final(self).tile == old(self).tile,
            final(self).hit_points == old(self).hit_points,
            final(self).npc == old(self).npc,
            final(self).light == old(self).light,
            final(self).blocks_gameplay == old(self).blocks_gameplay,
            final(self).blood == old(self).blood,
            final(self).realtime == old(self).realtime,
    {
        let loc = self.location.get(e).unwrap();
        if !self.size.is_valid(dest) {
            return false;
        }
        if self.occupant_at(dest, loc.layer).is_some() || self.is_solid_at(dest) {
            return false;
        }
        let ghost pre = *self;
        self.unplace(e);
        proof {
            if dest != loc.coord {
                crate::geom::lemma_index_coord(self.size, dest);
                crate::geom::lemma_index_coord(self.size, loc.coord);
            }
            assert(pre.spec_occupant(loc.coord, loc.layer) == Some(e));
        }
        self.place(e, Location { coord: dest, layer: loc.layer });
        true
    }

    /// Destroys an entity: it leaves the index and every table, and its handle
    /// stops being alive. Every other entity keeps its location and liveness.
    pub fn despawn(&mut self, e: Entity)
        requires
            old(self).wf(),
        ensures
            final(self).wf(),
            final(self).size == old(self).size,
            !final(self).allocator.alive(e),
            issued_kept(*old(self), *final(self)),
            forall|x: Entity| #[trigger] final(self).allocator.issued(x) == old(self).allocator.issued(x),
            final(self).location.spec_get(e) is None,
            final(self).hit_points.spec_get(e) is None,
            final(self).npc.spec_get(e) is None,
            final(self).realtime.spec_get(e) is None,
            final(self).blocks_gameplay.spec_get(e) is None,
            forall|x: Entity|
                x != e ==> #[trigger] final(self).location.spec_get(x) == old(self).location.spec_get(
                    x,
                ),
            forall|x: Entity|
                x != e ==> #[trigger] final(self).allocator.alive(x) == old(self).allocator.alive(x),
            forall|x: Entity|
                x != e ==> #[trigger] final(self).hit_points.spec_get(x) == old(self).hit_points.spec_get(
                    x,
                ),
            forall|x: Entity|
                x != e ==> #[trigger] final(self).tile.spec_get(x) == old(self).tile.spec_get(x),
            forall|x: Entity|
                x != e ==> #[trigger] final(self).npc.spec_get(x) == old(self).npc.spec_get(x),
            forall|x: Entity|
                x != e ==> #[trigger] final(self).realtime.spec_get(x) == old(self).realtime.spec_get(
                    x,
                ),
            forall|x: Entity|
                x != e ==> #[trigger] final(self).blocks_gameplay.spec_get(x) == old(
                    self,
                ).blocks_gameplay.spec_get(x),
    {
        self.unplace(e);
        self.tile.remove(e);
        self.hit_points.remove(e);
        self.npc.remove(e);
        self.light.remove(e);
        self.blocks_gameplay.remove(e);
        self.blood.remove(e);
        self.realtime.remove(e);
        let ghost mid = *self;
        self.allocator.despawn(e);
        proof {
            assert forall|x: Entity| #[trigger] self.location.spec_get(x) is Some implies self.allocator.alive(x) by {
                assert(mid.location.spec_get(x) is Some);
            }
        }
    }
}

/// Handles handed out stay handed out, and a handle that has died never
/// becomes alive again.
pub open spec fn issued_kept(w0: World, w1: World) -> bool {
    &&& forall|x: Entity| w0.allocator.issued(x) ==> #[trigger] w1.allocator.issued(x)
    &&& forall|x: Entity|
        w0.allocator.issued(x) && !w0.allocator.alive(x) ==> !#[trigger] w1.allocator.alive(x)
}

/// What a spawn leaves unchanged: every entity but the new one keeps its
/// location and liveness, and every entity alive before keeps its hit points.
pub open spec fn spawn_frame(w0: World, w1: World, r: Option<Entity>) -> bool {
    &&& w1.size == w0.size
    &&& forall|x: Entity| r != Some(x) ==> #[trigger] w1.location.spec_get(x) == w0.location.spec_get(x)
    &&& forall|x: Entity| r != Some(x) ==> #[trigger] w1.allocator.alive(x) == w0.allocator.alive(x)
    &&& forall|x: Entity| w0.allocator.alive(x) ==> #[trigger] w1.hit_points.spec_get(x) == w0.hit_points.spec_get(x)
    &&& forall|x: Entity| w0.allocator.alive(x) ==> #[trigger] w1.npc.spec_get(x) == w0.npc.spec_get(x)
    &&& r matches Some(e) ==> !w0.allocator.alive(e) && w1.allocator.alive(e)
    &&& issued_kept(w0, w1)
    &&& forall|x: Entity| w0.allocator.alive(x) ==> #[trigger] w1.tile.spec_get(x) == w0.tile.spec_get(x)
    &&& w1.allocator.slot_count() <= w0.allocator.slot_count() + 1
}

impl World {
    fn spawn_character(&mut self, c: Coord, tile: Tile, hp: u32) -> (r: Option<Entity>)
        requires
            old(self).wf(),
        ensures
            spawn_frame(*old(self), *final(self), r),
            r is Some <==> (old(self).size.contains(c) && old(self).spec_occupant(c, Layer::Character) is None
                && !old(self).allocator.is_full()),
            final(self).wf(),
            final(self).size == old(self).size,
            r matches Some(e) ==> final(self).location.spec_get(e) == Some(
                Location { coord: c, layer: Layer::Character },
            ) && final(self).tile.spec_get(e) == Some(tile) && final(self).hit_points.spec_get(e)
                == Some(HitPoints { current: hp, max: hp }),
            old(self).size.contains(c) && old(self).spec_occupant(c, Layer::Character) is None
                && !old(self).allocator.is_full() ==> r is Some,
            forall|x: Entity|
                r != Some(x) ==> #[trigger] final(self).location.spec_get(x) == old(
                    self,
                ).location.spec_get(x),
            forall|x: Entity|
                old(self).allocator.alive(x) ==> #[trigger] final(self).hit_points.spec_get(x)
                    == old(self).hit_points.spec_get(x),
    {
        let ghost pre = *self;
        let r = self.spawn_at(Location { coord: c, layer: Layer::Character }, tile);
        match r {
            Some(e) => {
                self.hit_points.insert(e, HitPoints { current: hp, max: hp });
                proof {
                    assert forall|x: Entity| pre.allocator.alive(x) implies #[trigger] self.hit_points.spec_get(x)
                        == pre.hit_points.spec_get(x) by {
                        if x.index == e.index {
                            self.allocator.lemma_unique_generation(x, e);
                        }
                    }
                }
            },
            None => {},
        }
        r
    }

    pub fn spawn_floor(&mut self, c: Coord) -> (r: Option<Entity>)
        requires
            old(self).wf(),
        ensures
            spawn_frame(*old(self), *final(self), r),
            r is Some <==> (old(self).size.contains(c) && old(self).spec_occupant(c, Layer::Floor) is None
                && !old(self).allocator.is_full()),
            final(self).wf(),
            final(self).size == old(self).size,
            r matches Some(e) ==> final(self).location.spec_get(e) == Some(
                Location { coord: c, layer: Layer::Floor },
            ) && final(self).tile.spec_get(e) == Some(Tile::Floor),
    {
        self.spawn_at(Location { coord: c, layer: Layer::Floor }, Tile::Floor)
    }

    pub fn spawn_carpet(&mut self, c: Coord) -> (r: Option<Entity>)
        requires
            old(self).wf(),
        ensures
            spawn_frame(*old(self), *final(self), r),
            r is Some <==> (old(self).size.contains(c) && old(self).spec_occupant(c, Layer::Floor) is None
                && !old(self).allocator.is_full()),
            final(self).wf(),
            final(self).size == old(self).size,
            r matches Some(e) ==> final(self).location.spec_get(e) == Some(
                Location { coord: c, layer: Layer::Floor },
            ) && final(self).tile.spec_get(e) == Some(Tile::Carpet),
    {
        self.spawn_at(Location { coord: c, layer: Layer::Floor }, Tile::Carpet)
    }

    pub fn spawn_wall(&mut self, c: Coord) -> (r: Option<Entity>)
        requires
            old(self).wf(),
        ensures
            spawn_frame(*old(self), *final(self), r),
            r is Some <==> (old(self).size.contains(c) && old(self).spec_occupant(c, Layer::Feature) is None
                && !old(self).allocator.is_full()),
            final(self).wf(),
            final(self).size == old(self).size,
            r matches Some(e) ==> final(self).location.spec_get(e) == Some(
                Location { coord: c, layer: Layer::Feature },
            ) && final(self).tile.spec_get(e) == Some(Tile::Wall),
    {
        self.spawn_at(Location { coord: c, layer: Layer::Feature }, Tile::Wall)
    }

    pub fn spawn_player(&mut self, c: Coord) -> (r: Option<Entity>)
        requires
            old(self).wf(),
        ensures
            spawn_frame(*old(self), *final(self), r),
            r is Some <==> (old(self).size.contains(c) && old(self).spec_occupant(c, Layer::Character) is None
                && !old(self).allocator.is_full()),
            final(self).wf(),
            final(self).size == old(self).size,
            r matches Some(e) ==> final(self).location.spec_get(e) == Some(
                Location { coord: c, layer: Layer::Character },
            ) && final(self).tile.spec_get(e) == Some(Tile::Player) && final(self).hit_points.spec_get(e)
                == Some(HitPoints { current: PLAYER_HIT_POINTS, max: PLAYER_HIT_POINTS }),
    {
        self.spawn_character(c, Tile::Player, PLAYER_HIT_POINTS)
    }

    fn spawn_npc(&mut self, c: Coord, tile: Tile, d: Disposition) -> (r: Option<Entity>)
        requires
            old(self).wf(),
        ensures
            spawn_frame(*old(self), *final(self), r),
            r is Some <==> (old(self).size.contains(c) && old(self).spec_occupant(c, Layer::Character) is None
                && !old(self).allocator.is_full()),
            final(self).wf(),
            final(self).size == old(self).size,
            r matches Some(e) ==> final(self).location.spec_get(e) == Some(
                Location { coord: c, layer: Layer::Character },
            ) && final(self).tile.spec_get(e) == Some(tile) && final(self).npc.spec_get(e) == Some(d)
                && final(self).hit_points.spec_get(e) == Some(
                HitPoints { current: NPC_HIT_POINTS, max: NPC_HIT_POINTS },
            ),
    {
        let ghost pre = *self;
        let r = self.spawn_character(c, tile, NPC_HIT_POINTS);
        match r {
            Some(e) => {
                let ghost mid = *self;
                self.npc.insert(e, d);
                proof {
                    assert forall|x: Entity| pre.allocator.alive(x) implies #[trigger] self.npc.spec_get(x)
                        == pre.npc.spec_get(x) by {
                        assert(mid.npc.spec_get(x) == pre.npc.spec_get(x));
                        if x.index == e.index {
                            assert(self.allocator.alive(x));
                            self.allocator.lemma_unique_generation(x, e);
                        }
                    }
                }
            },
            None => {},
        }
        r
    }

    /// Spawns a passive human.
    pub fn spawn_human(&mut self, c: Coord) -> (r: Option<Entity>)
        requires
            old(self).wf(),
        ensures
            spawn_frame(*old(self), *final(self), r),
            r is Some <==> (old(self).size.contains(c) && old(self).spec_occupant(c, Layer::Character) is None
                && !old(self).allocator.is_full()),
            final(self).wf(),
            final(self).size == old(self).size,
            r matches Some(e) ==> final(self).location.spec_get(e) == Some(
                Location { coord: c, layer: Layer::Character },
            ) && final(self).npc.spec_get(e) == Some(Disposition::Passive),
    {
        self.spawn_npc(c, Tile::Human, Disposition::Passive)
    }

    /// Spawns a hostile former human.
    pub fn spawn_former_human(&mut self, c: Coord) -> (r: Option<Entity>)
        requires
            old(self).wf(),
        ensures
            spawn_frame(*old(self), *final(self), r),
            r is Some <==> (old(self).size.contains(c) && old(self).spec_occupant(c, Layer::Character) is None
                && !old(self).allocator.is_full()),
            final(self).wf(),
            final(self).size == old(self).size,
            r matches Some(e) ==> final(self).location.spec_get(e) == Some(
                Location { coord: c, layer: Layer::Character },
            ) && final(self).npc.spec_get(e) == Some(Disposition::Hostile),
    {
        self.spawn_npc(c, Tile::FormerHuman, Disposition::Hostile)
    }

    /// Attaches a light to the floor at `c`; `false` where there is no floor.
    pub fn spawn_light(&mut self, c: Coord, light: Light) -> (r: bool)
        requires
            old(self).wf(),
        ensures
            final(self).wf(),
            final(self).size == old(self).size,
            r == (old(self).size.contains(c) && old(self).spec_occupant(c, Layer::Floor) is Some),
            r ==> final(self).light.spec_get(old(self).spec_occupant(c, Layer::Floor).unwrap())
                == Some(light),
            final(self).location == old(self).location,
            final(self).allocator == old(self).allocator,
            final(self).hit_points == old(self).hit_points,
            final(self).npc == old(self).npc,
            final(self).tile == old(self).tile,
            final(self).cells == old(self).cells,
    {
        match self.occupant_at(c, Layer::Floor) {
            Some(f) => {
                self.light.insert(f, light);
                true
            },
            None => false,
        }
    }
}

/// No two distinct entities occupy the same coordinate and layer.
pub proof fn lemma_spatial_exclusivity(w: &World, a: Entity, b: Entity)
    requires
        w.wf(),
        w.location.spec_get(a) is Some,
        w.location.spec_get(a) == w.location.spec_get(b),
    ensures
        a == b,
{
    let loc = w.location.spec_get(a).unwrap();
    assert(w.location.spec_get(b) is Some);
}

/// The spatial index is a cache derived from the locations: two well-formed
/// worlds of one size whose location tables agree have the same index.
pub proof fn lemma_index_determined_by_locations(w1: &World, w2: &World)
    requires
        w1.wf(),
        w2.wf(),
        w1.size == w2.size,
        forall|e: Entity| #[trigger] w1.location.spec_get(e) == w2.location.spec_get(e),
    ensures
        w1.cells@ == w2.cells@,
{
    assert forall|i: int| 0 <= i < w1.cells@.len() implies w1.cells@[i] == w2.cells@[i] by {
        crate::geom::lemma_coord_index(w1.size, i);
        assert forall|l: Layer| #[trigger] w1.cells@[i].at(l) == w2.cells@[i].at(l) by {
            if w1.cells@[i].at(l) is Some {
                let e = w1.cells@[i].at(l).unwrap();
                assert(w2.location.spec_get(e) == w1.location.spec_get(e));
            }
            if w2.cells@[i].at(l) is Some {
                let e = w2.cells@[i].at(l).unwrap();
                assert(w2.location.spec_get(e) == w1.location.spec_get(e));
            }
        }
        assert(w1.cells@[i].at(Layer::Floor) == w2.cells@[i].at(Layer::Floor));
        assert(w1.cells@[i].at(Layer::Feature) == w2.cells@[i].at(Layer::Feature));
        assert(w1.cells@[i].at(Layer::Character) == w2.cells@[i].at(Layer::Character));
        assert(w1.cells@[i].at(Layer::Particle) == w2.cells@[i].at(Layer::Particle));
    }
    assert(w1.cells@ =~= w2.cells@);
}

/// An occupant stays put while every entity alive before keeps its location
/// and no other entity arrives at that coordinate and layer.
pub proof fn lemma_occupant_kept(w0: &World, w1: &World, c: Coord, l: Layer)
    requires
        w0.wf(),
        w1.wf(),
        w0.size == w1.size,
        w0.size.contains(c),
        forall|x: Entity|
            w0.allocator.alive(x) ==> #[trigger] w1.location.spec_get(x) == w0.location.spec_get(x),
        forall|x: Entity|
            !w0.allocator.alive(x) ==> #[trigger] w1.location.spec_get(x) != Some(Location { coord: c, layer: l }),
    ensures
        w1.spec_occupant(c, l) == w0.spec_occupant(c, l),
{
    crate::geom::lemma_index_coord(w0.size, c);
    let i = w0.size.index_of(c);
    if w0.cells@[i].at(l) is Some {
        let e = w0.cells@[i].at(l).unwrap();
        assert(w0.location.spec_get(e) is Some);
        assert(w1.location.spec_get(e) == w0.location.spec_get(e));
    }
    if w1.cells@[i].at(l) is Some {
        let e = w1.cells@[i].at(l).unwrap();
        assert(w1.location.spec_get(e) is Some);
        if w0.allocator.alive(e) {
            assert(w0.location.spec_get(e) == w1.location.spec_get(e));
        }
    }
}
} // verus!
