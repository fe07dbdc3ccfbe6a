use vstd::prelude::*;
use crate::behaviour::{Agent, BehaviourContext};
use crate::component::ComponentTable;
use crate::entity::Entity;
use crate::geom::{CardinalDirection, Coord, Size, MAX_SIDE};
use crate::realtime::{Effect, EffectKind, ExternalEvent};
use crate::rng::XorShiftRng;
use crate::visibility::{Omniscient, VisibilityGrid};
use crate::world::{issued_kept, CharacterInfo, HitPoints, Layer, Light, Rgb24, ToRenderEntity, World};

verus! {

/// A turn action, for the player or for an NPC.
#[derive(Clone, Copy, Debug, PartialEq, Eq, Structural)]
pub enum Input {
    Walk(CardinalDirection),
    Fire(Coord),
    Wait,
}

/// Settings of the core.
#[derive(Clone, Copy, Debug, PartialEq, Eq, Structural)]
pub struct Config {
    pub omniscient: Option<Omniscient>,
}

/// The terminal outcome of a turn or tick.
#[derive(Clone, Copy, Debug, PartialEq, Eq, Structural)]
pub enum GameControlFlow {
    GameOver,
}

/// Channel value of the grey lights that terrain `*` cells carry.
pub const TERRAIN_LIGHT_LEVEL: u8 = 187;
/// Range of the lights that terrain `*` cells carry.
pub const TERRAIN_LIGHT_RANGE: u32 = 12;

impl World {
    /// Carries out a turn action for the character `e`: a walk moves it one
    /// cell if it can enter it, a shot launches a rocket, a wait does nothing.
    pub fn apply_input(&mut self, e: Entity, input: Input)
        requires
            old(self).wf(),
        ensures
            final(self).wf(),
            issued_kept(*old(self), *final(self)),
            final(self).size == old(self).size,
            final(self).hit_points == old(self).hit_points,
            forall|x: Entity|
                old(self).allocator.alive(x) ==> #[trigger] final(self).allocator.alive(x),
            forall|x: Entity|
                x != e && old(self).allocator.alive(x) ==> #[trigger] final(self).location.spec_get(x)
                    == old(self).location.spec_get(x),
            input == Input::Wait ==> *final(self) == *old(self),
            input_outcome(*old(self), *final(self), e, input),
            old(self).allocator.alive(e) && old(self).location.spec_get(e) is Some ==> final(self).location.spec_get(e) is Some,
            match input {
                Input::Fire(target) => fire_outcome(*old(self), *final(self), e, target),
                _ => true,
            },
            input matches Input::Walk(dir) ==> {
                match old(self).location.spec_get(e) {
                    Some(loc) => {
                        let dest = dir.spec_step(loc.coord);
                        if old(self).spec_can_enter(dest, loc.layer) {
                            final(self).location.spec_get(e) == Some(
                                crate::world::Location { coord: dest, layer: loc.layer },
                            )
                        } else {
                            *final(self) == *old(self)
                        }
                    },
                    None => *final(self) == *old(self),
                }
            },
    {
        match input {
            Input::Walk(dir) => {
                match self.location.get(e) {
                    Some(loc) => {
                        match dir.step(loc.coord) {
                            Some(dest) => {
                                self.move_to(e, dest);
                            },
                            None => {},
                        }
                    },
                    None => {},
                }
            },
            Input::Fire(target) => {
                let ghost pre = *self;
                let r = self.character_fire_rocket(e, target);
                proof {
                    if r is Some {
                        let x = r.unwrap();
                        assert(self.realtime.spec_get(x) == Some(crate::realtime::spec_flight_effect(target)));
                    }
                    assert forall|x: Entity| pre.allocator.alive(x) implies #[trigger] self.allocator.alive(
                        x,
                    ) by {
                        if r == Some(x) {
                            assert(!pre.allocator.alive(x));
                        }
                    }
                }
            },
            Input::Wait => {},
        }
    }

    /// The render record of a located entity with a tile.
    pub open spec fn render_record(&self, e: Entity) -> ToRenderEntity {
        let loc = self.location.spec_get(e).unwrap();
        ToRenderEntity {
            coord: loc.coord,
            layer: loc.layer,
            tile: self.tile.spec_get(e).unwrap(),
            fade: fade_of(self.realtime.spec_get(e)),
            colour_hint: match self.light.spec_get(e) {
                Some(l) => Some(l.colour),
                None => None,
            },
            blood: self.blood.spec_get(e) is Some,
        }
    }

    /// Whether `e` is drawn: it has a tile and a location.
    pub open spec fn drawn(&self, e: Entity) -> bool {
        self.tile.spec_get(e) is Some && self.location.spec_get(e) is Some
    }

    /// `recs` are the render records of the drawn entities `src`, whose
    /// indices strictly increase.
    pub open spec fn records_of(&self, src: Seq<Entity>, recs: Seq<ToRenderEntity>) -> bool {
        &&& src.len() == recs.len()
        &&& forall|k: int| 0 <= k < src.len() ==> #[trigger] self.drawn(src[k]) && recs[k] == self.render_record(src[k])
        &&& forall|j: int, k: int| 0 <= j < k < src.len() ==> src[j].index < src[k].index
    }

    proof fn lemma_records_push(&self, src: Seq<Entity>, recs: Seq<ToRenderEntity>, e: Entity, rec: ToRenderEntity)
        requires
            self.records_of(src, recs),
            self.drawn(e),
            rec == self.render_record(e),
            forall|k: int| 0 <= k < src.len() ==> src[k].index < e.index,
        ensures
            self.records_of(src.push(e), recs.push(rec)),
    {
        let s2 = src.push(e);
        let r2 = recs.push(rec);
        assert forall|k: int| 0 <= k < s2.len() implies #[trigger] self.drawn(s2[k]) && r2[k] == self.render_record(
            s2[k],
        ) by {
            if k < src.len() {
                assert(s2[k] == src[k]);
                assert(r2[k] == recs[k]);
            }
        }
        assert forall|j: int, k: int| 0 <= j < k < s2.len() implies s2[j].index < s2[k].index by {
            assert(s2[j] == src[j]);
            if k < src.len() {
                assert(s2[k] == src[k]);
            }
        }
    }

    /// `rec` is the render record of some drawn entity.
    pub open spec fn renders(&self, rec: ToRenderEntity) -> bool {
        exists|e: Entity| #[trigger] self.drawn(e) && self.render_record(e) == rec
    }

    fn fade_exec(eff: Option<Effect>) -> (r: Option<u8>)
        ensures
            r == fade_of(eff),
    {
        match eff {
            Some(eff) => match eff.kind {
                EffectKind::Fade => {
                    if eff.elapsed >= eff.duration {
                        Some(255u8)
                    } else {
                        let num = eff.elapsed as u128 * 255;
                        let q = num / eff.duration as u128;
                        proof {
                            let n = eff.elapsed as int * 255;
                            let d = eff.duration as int;
                            assert(n < d * 255) by (nonlinear_arith)
                                requires
                                    n == eff.elapsed as int * 255,
                                    d == eff.duration as int,
                                    eff.elapsed < eff.duration,
                            ;
                            vstd::arithmetic::div_mod::lemma_fundamental_div_mod(n, d);
                            assert(n / d < 255) by (nonlinear_arith)
                                requires
                                    n == d * (n / d) + n % d,
                                    0 <= n % d,
                                    n < d * 255,
                                    d > 0,
                            ;
                        }
                        Some(q as u8)
                    }
                },
                _ => None,
            },
            None => None,
        }
    }

    /// One record per drawn entity, in increasing order of entity index, and
    /// nothing else.
    pub fn to_render_entities(&self) -> (r: Vec<ToRenderEntity>)
        requires
            self.wf(),
        ensures
            forall|k: int| 0 <= k < r@.len() ==> self.renders(#[trigger] r@[k]),
            forall|e: Entity| #[trigger] self.drawn(e) ==> r@.contains(self.render_record(e)),
            exists|src: Seq<Entity>| #[trigger] self.records_of(src, r@),
    {
        let es = self.tile.entities();
        let mut out: Vec<ToRenderEntity> = Vec::new();
        let ghost mut src: Seq<Entity> = Seq::empty();
        let mut i: usize = 0;
        while i < es.len()
            invariant
                i <= es@.len(),
                forall|k: int| 0 <= k < es@.len() ==> (#[trigger] self.tile.spec_get(es@[k])) is Some,
                forall|e: Entity| self.tile.spec_get(e) is Some ==> es@.contains(e),
                forall|j: int, k: int| 0 <= j < k < es@.len() ==> es@[j].index < es@[k].index,
                forall|k: int| 0 <= k < out@.len() ==> self.renders(#[trigger] out@[k]),
                forall|k: int|
                    0 <= k < i && #[trigger] self.drawn(es@[k]) ==> out@.contains(self.render_record(es@[k])),
                self.records_of(src, out@),
                forall|k: int| 0 <= k < src.len() ==> exists|m: int| 0 <= m < i && es@[m] == #[trigger] src[k],
            decreases es.len() - i,
        {
            let e = es[i];
            let tile = self.tile.get(e).unwrap();
            let ghost prev = out@;
            match self.location.get(e) {
                Some(loc) => {
                    let fade = World::fade_exec(self.realtime.get(e));
                    let colour_hint = match self.light.get(e) {
                        Some(l) => Some(l.colour),
                        None => None,
                    };
                    let blood = self.blood.contains(e);
                    let rec = ToRenderEntity { coord: loc.coord, layer: loc.layer, tile, fade, colour_hint, blood };
                    out.push(rec);
                    proof {
                        let src0 = src;
                        src = src.push(e);
                        assert forall|k: int| 0 <= k < src0.len() implies src0[k].index < e.index by {
                            let m = choose|m: int| 0 <= m < i && es@[m] == src0[k];
                        }
                        assert forall|k: int| 0 <= k < src.len() implies exists|m: int|
                            0 <= m < i + 1 && es@[m] == #[trigger] src[k] by {
                            if k < src0.len() {
                                let m = choose|m: int| 0 <= m < i && es@[m] == src0[k];
                                assert(es@[m] == src[k]);
                            } else {
                                assert(es@[i as int] == src[k]);
                            }
                        }
                        assert(self.drawn(e));
                        assert(rec == self.render_record(e));
                        assert(out@ == prev.push(rec));
                        self.lemma_records_push(src0, prev, e, rec);
                        assert(rec == self.render_record(e));
                        assert(out@[out@.len() - 1] == rec);
                        assert forall|k: int| 0 <= k < out@.len() implies self.renders(#[trigger] out@[k]) by {
                            if k < prev.len() {
                                assert(out@[k] == prev[k]);
                            }
                        }
                        assert forall|k: int|
                            0 <= k < i + 1 && #[trigger] self.drawn(es@[k]) implies out@.contains(
                            self.render_record(es@[k]),
                        ) by {
                            if k < i {
                                let m = choose|m: int| 0 <= m < prev.len() && prev[m] == self.render_record(es@[k]);
                                assert(out@[m] == prev[m]);
                            }
                        }
                    }
                },
                None => {
                    proof {
                        assert(!self.drawn(e));
                        assert forall|k: int| 0 <= k < src.len() implies exists|m: int|
                            0 <= m < i + 1 && es@[m] == #[trigger] src[k] by {
                            let m = choose|m: int| 0 <= m < i && es@[m] == src[k];
                        }
                    }
                },
            }
            i += 1;
        }
        proof {
            assert forall|e: Entity| #[trigger] self.drawn(e) implies out@.contains(self.render_record(e)) by {
                assert(es@.contains(e));
                let k = choose|k: int| 0 <= k < es@.len() && es@[k] == e;
                assert(self.drawn(es@[k]));
            }
        }
        out
    }
}


/// The report of the player's state given the previous report `last`: the
/// player's current info while it has any, else `last` with 0 hit points.
/// Once 0, the reported hit points stay 0.
pub open spec fn report(last: CharacterInfo, player: Entity, w: World) -> CharacterInfo {
    if last.hit_points.current == 0 {
        last
    } else if w.location.spec_get(player) is Some && w.hit_points.spec_get(player) is Some {
        CharacterInfo { coord: w.spec_coord(player).unwrap(), hit_points: w.hit_points.spec_get(player).unwrap() }
    } else {
        CharacterInfo { hit_points: HitPoints { current: 0, ..last.hit_points }, ..last }
    }
}

/// Fade intensity of a fading effect, from 0 up to 255 once it has run its
/// course; `None` for any other effect.
pub open spec fn fade_of(eff: Option<Effect>) -> Option<u8> {
    match eff {
        Some(e) => match e.kind {
            EffectKind::Fade => Some(
                if e.elapsed >= e.duration {
                    255u8
                } else {
                    (e.elapsed * 255 / e.duration as int) as u8
                },
            ),
            _ => None,
        },
        None => None,
    }
}

/// A located character `e` that fires at another cell, with the particle slot
/// of its own cell free and a handle left, launches a new rocket from its cell.
pub open spec fn fire_outcome(w0: World, w1: World, e: Entity, target: Coord) -> bool {
    w0.spec_coord(e) is Some && w0.spec_coord(e) != Some(target) && w0.spec_occupant(
        w0.spec_coord(e).unwrap(),
        Layer::Particle,
    ) is None && !w0.allocator.is_full() ==> exists|r: Entity|
        #![trigger w1.realtime.spec_get(r)]
        !w0.allocator.alive(r) && w1.location.spec_get(r) == Some(
            crate::world::Location { coord: w0.spec_coord(e).unwrap(), layer: Layer::Particle },
        ) && w1.realtime.spec_get(r) == Some(crate::realtime::spec_flight_effect(target))
            && w1.blocks_gameplay.spec_get(r) is Some
}

/// What carrying out `input` for `e` does to the world.
pub open spec fn input_outcome(w0: World, w1: World, e: Entity, input: Input) -> bool {
    match input {
        Input::Walk(dir) => walk_outcome(w0, w1, e, dir),
        Input::Fire(target) => fire_outcome(w0, w1, e, target),
        Input::Wait => w1 == w0,
    }
}

/// What an optional action does to the world; no action changes nothing.
pub open spec fn action_outcome(w0: World, w1: World, e: Entity, action: Option<Input>) -> bool {
    match action {
        Some(input) => input_outcome(w0, w1, e, input),
        None => w1 == w0,
    }
}

/// An NPC pass from world `w0` and random state `s0` to `w1` and `s1`: the
/// entities `es` that had an agent when it began are taken in increasing
/// order of index through the worlds `ws` and states `ss`. One that is alive
/// when its turn comes draws once and carries out `npc_decision` for that
/// draw; any other is passed over.
pub open spec fn npc_trace(
    w0: World,
    w1: World,
    s0: u64,
    s1: u64,
    agents: ComponentTable<Agent>,
    player: Option<Coord>,
    dist: Seq<u32>,
    es: Seq<Entity>,
    ws: Seq<World>,
    ss: Seq<u64>,
) -> bool {
    &&& ws.len() == es.len() + 1
    &&& ss.len() == es.len() + 1
    &&& ws[0] == w0
    &&& ss[0] == s0
    &&& ws[es.len() as int] == w1
    &&& ss[es.len() as int] == s1
    &&& forall|e: Entity| agents.spec_get(e) is Some <==> #[trigger] es.contains(e)
    &&& forall|j: int, k: int| 0 <= j < k < es.len() ==> es[j].index < es[k].index
    &&& forall|k: int|
        0 <= k < es.len() ==> #[trigger] npc_step(ws[k], ws[k + 1], ss[k], ss[k + 1], es[k], player, dist)
}

/// What the rest of a turn does once the player's action has left the world
/// at `w1`: visibility is recomputed over `w1` from the player's coordinate,
/// the distance field is rebuilt, and the NPCs take their pass from `w1`.
pub open spec fn after_player_action(g0: Game, g1: Game, w1: World, omniscient: Option<Omniscient>) -> bool {
    &&& (w1.spec_coord(g0.spec_player()) is Some ==> g1.spec_visibility().spec_cells()
        == crate::visibility::apply_update(
        g0.spec_visibility().spec_cells(),
        crate::visibility::seen_cells(w1, w1.spec_coord(g0.spec_player()).unwrap(), omniscient),
        crate::visibility::light_levels(w1, w1.size.count() as int),
        crate::visibility::features_of(w1),
    ))
    &&& (w1.spec_coord(g0.spec_player()) is None ==> g1.spec_visibility() == g0.spec_visibility())
    &&& exists|es: Seq<Entity>, ws: Seq<World>, ss: Seq<u64>|
        npc_trace(
            w1,
            g1.spec_world(),
            g0.spec_rng().state,
            g1.spec_rng().state,
            g0.spec_agents(),
            w1.spec_coord(g0.spec_player()),
            g1.spec_behaviour().spec_dist(),
            es,
            ws,
            ss,
        )
}

/// One step of an NPC pass.
pub open spec fn npc_step(
    w0: World,
    w1: World,
    s0: u64,
    s1: u64,
    e: Entity,
    player: Option<Coord>,
    dist: Seq<u32>,
) -> bool {
    if w0.allocator.alive(e) {
        &&& s1 == crate::rng::next_state(s0)
        &&& action_outcome(w0, w1, e, crate::behaviour::npc_decision(w0, e, player, dist, s1))
    } else {
        w1 == w0 && s1 == s0
    }
}

/// A live, located character `e` that walks in `dir` ends up one step away
/// when it could enter that cell, and stays where it was otherwise.
pub open spec fn walk_outcome(w0: World, w1: World, e: Entity, dir: CardinalDirection) -> bool {
    w0.location.spec_get(e) is Some && w0.allocator.alive(e) ==> {
        let loc = w0.location.spec_get(e).unwrap();
        let dest = dir.spec_step(loc.coord);
        w1.location.spec_get(e) == Some(
            if w0.spec_can_enter(dest, loc.layer) {
                crate::world::Location { coord: dest, layer: loc.layer }
            } else {
                loc
            },
        )
    }
}

/// The whole simulation: the world, what the player knows of it, the random
/// stream, turn bookkeeping, NPC memory and the events of the last tick.
pub struct Game {
    world: World,
    visibility_grid: VisibilityGrid,
    player: Entity,
    last_player_info: CharacterInfo,
    rng: XorShiftRng,
    frame_count: u64,
    events: Vec<ExternalEvent>,
    behaviour_context: BehaviourContext,
    agents: ComponentTable<Agent>,
    agents_to_remove: Vec<Entity>,
}

impl Game {
    pub closed spec fn wf(&self) -> bool {
        &&& self.world.wf()
        &&& self.spec_visibility().wf()
        &&& self.spec_visibility().spec_size() == self.world.size
        &&& self.spec_behaviour().wf()
        &&& self.spec_behaviour().spec_size() == self.world.size
        &&& self.spec_agents().wf()
        &&& self.spec_agents().spec_get(self.spec_player()) is None
        &&& forall|x: Entity|
            #[trigger] self.spec_agents().spec_get(x) is Some ==> self.spec_world().allocator.issued(x)
    }

    pub closed spec fn spec_world(&self) -> World {
        self.world
    }

    pub closed spec fn spec_visibility(&self) -> VisibilityGrid {
        self.visibility_grid
    }

    pub closed spec fn spec_behaviour(&self) -> BehaviourContext {
        self.behaviour_context
    }

    pub closed spec fn spec_agents(&self) -> ComponentTable<Agent> {
        self.agents
    }

    pub closed spec fn spec_player(&self) -> Entity {
        self.player
    }

    pub closed spec fn spec_player_info(&self) -> CharacterInfo {
        self.last_player_info
    }

    pub closed spec fn spec_events(&self) -> Seq<ExternalEvent> {
        self.events@
    }

    pub closed spec fn spec_frame_count(&self) -> u64 {
        self.frame_count
    }

    pub closed spec fn spec_rng(&self) -> XorShiftRng {
        self.rng
    }

    /// The game is over once the reported hit points of the player are 0.
    pub open spec fn spec_game_over(&self) -> bool {
        self.spec_player_info().hit_points.current == 0
    }

    /// The report of the player's state after a turn or tick.
    pub open spec fn next_player_info(&self, w: World) -> CharacterInfo {
        report(self.spec_player_info(), self.spec_player(), w)
    }

    pub fn is_gameplay_blocked(&self) -> (r: bool)
        requires
            self.wf(),
        ensures
            r == (exists|e: Entity| #[trigger] self.spec_world().blocks_gameplay.spec_get(e) is Some),
    {
        self.world.is_gameplay_blocked()
    }

    /// Recomputes what the player sees, when the player is located.
    pub fn update_visibility(&mut self, config: &Config)
        requires
            old(self).wf(),
        ensures
            final(self).wf(),
            final(self).spec_world() == old(self).spec_world(),
            final(self).spec_player() == old(self).spec_player(),
            final(self).spec_player_info() == old(self).spec_player_info(),
            final(self).spec_agents() == old(self).spec_agents(),
            final(self).spec_behaviour() == old(self).spec_behaviour(),
            final(self).spec_rng() == old(self).spec_rng(),
            final(self).spec_events() == old(self).spec_events(),
            final(self).spec_frame_count() == old(self).spec_frame_count(),
            old(self).spec_world().spec_coord(old(self).spec_player()) is None ==> final(self).spec_visibility()
                == old(self).spec_visibility(),
            old(self).spec_world().spec_coord(old(self).spec_player()) is Some ==> {
                let c = old(self).spec_world().spec_coord(old(self).spec_player()).unwrap();
                &&& final(self).spec_visibility().spec_cells() == crate::visibility::apply_update(
                    old(self).spec_visibility().spec_cells(),
                    crate::visibility::seen_cells(old(self).spec_world(), c, config.omniscient),
                    crate::visibility::light_levels(
                        old(self).spec_world(),
                        old(self).spec_world().size.count() as int,
                    ),
                    crate::visibility::features_of(old(self).spec_world()),
                )
                &&& final(self).spec_visibility().spec_cells()[old(self).spec_world().size.index_of(
                    c,
                )].visibility == crate::visibility::CellVisibility::Visible
            },
    {
        match self.world.entity_coord(self.player) {
            Some(c) => {
                proof {
                    assert(self.world.location.spec_get(self.player) is Some);
                }
                self.visibility_grid.update(c, &self.world, config.omniscient);
            },
            None => {},
        }
    }

    fn update_last_player_info(&mut self)
        requires
            old(self).wf(),
        ensures
            final(self).spec_player_info() == old(self).next_player_info(old(self).spec_world()),
            final(self).wf(),
            final(self).spec_behaviour() == old(self).spec_behaviour(),
            final(self).spec_world() == old(self).spec_world(),
            final(self).spec_player() == old(self).spec_player(),
            final(self).spec_agents() == old(self).spec_agents(),
            final(self).spec_visibility() == old(self).spec_visibility(),
            final(self).spec_events() == old(self).spec_events(),
            final(self).spec_frame_count() == old(self).spec_frame_count(),
            final(self).spec_rng() == old(self).spec_rng(),
    {
        if self.last_player_info.hit_points.current == 0 {
            return ;
        }
        match self.world.character_info(self.player) {
            Some(info) => {
                self.last_player_info = info;
            },
            None => {
                self.last_player_info.hit_points.current = 0;
            },
        }
    }

    fn is_game_over(&self) -> (r: bool)
        ensures
            r == self.spec_game_over(),
    {
        self.last_player_info.hit_points.current == 0
    }

    /// Runs every NPC once, in increasing order of entity index. An NPC whose
    /// entity no longer exists is skipped and forgotten after the pass.
    fn npc_turn(&mut self)
        requires
            old(self).wf(),
        ensures
            final(self).wf(),
            final(self).spec_world().size == old(self).spec_world().size,
            final(self).spec_player() == old(self).spec_player(),
            final(self).spec_player_info() == old(self).spec_player_info(),
            final(self).spec_events() == old(self).spec_events(),
            final(self).spec_frame_count() == old(self).spec_frame_count(),
            final(self).spec_visibility() == old(self).spec_visibility(),
            final(self).spec_world().hit_points == old(self).spec_world().hit_points,
            forall|x: Entity|
                old(self).spec_world().allocator.alive(x) ==> #[trigger] final(self).spec_world().allocator.alive(x),
            issued_kept(old(self).spec_world(), final(self).spec_world()),
            forall|x: Entity|
                #[trigger] final(self).spec_agents().spec_get(x) is Some <==> (old(self).spec_agents().spec_get(x) is Some
                    && old(self).spec_world().allocator.alive(x)),
            forall|x: Entity|
                old(self).spec_agents().spec_get(x) is None && old(self).spec_world().allocator.alive(x)
                    ==> #[trigger] final(self).spec_world().location.spec_get(x) == old(self).spec_world().location.spec_get(x),
            final(self).spec_behaviour().spec_dist() == old(self).spec_behaviour().spec_dist(),
            final(self).spec_behaviour().spec_size() == old(self).spec_behaviour().spec_size(),
            exists|es: Seq<Entity>, ws: Seq<World>, ss: Seq<u64>|
                npc_trace(
                    old(self).spec_world(),
                    final(self).spec_world(),
                    old(self).spec_rng().state,
                    final(self).spec_rng().state,
                    old(self).spec_agents(),
                    old(self).spec_world().spec_coord(old(self).spec_player()),
                    old(self).spec_behaviour().spec_dist(),
                    es,
                    ws,
                    ss,
                ),
    {
        let es = self.agents.entities();
        let player_coord = self.world.entity_coord(self.player);
        let ghost mut ws: Seq<World> = seq![self.world];
        let ghost mut ss: Seq<u64> = seq![self.rng.state];
        self.agents_to_remove.clear();
        let mut i: usize = 0;
        while i < es.len()
            invariant
                self.wf(),
                i <= es@.len(),
                issued_kept(old(self).world, self.world),
                self.world.size == old(self).spec_world().size,
                self.player == old(self).player,
                self.last_player_info == old(self).last_player_info,
                self.events == old(self).events,
                self.frame_count == old(self).frame_count,
                self.visibility_grid == old(self).visibility_grid,
                self.world.hit_points == old(self).spec_world().hit_points,
                forall|k: int| 0 <= k < es@.len() ==> (#[trigger] old(self).agents.spec_get(es@[k])) is Some,
                forall|e: Entity| old(self).agents.spec_get(e) is Some ==> es@.contains(e),
                forall|x: Entity|
                    #[trigger] self.agents.spec_get(x) is Some <==> old(self).agents.spec_get(x) is Some,
                forall|x: Entity|
                    old(self).spec_world().allocator.alive(x) ==> #[trigger] self.world.allocator.alive(x),
                forall|x: Entity|
                    old(self).agents.spec_get(x) is None && old(self).world.allocator.alive(x)
                        ==> #[trigger] self.world.location.spec_get(x) == old(self).world.location.spec_get(x),
                forall|k: int|
                    0 <= k < self.agents_to_remove@.len() ==> !old(self).spec_world().allocator.alive(
                        #[trigger] self.agents_to_remove@[k],
                    ),
                forall|k: int|
                    0 <= k < i && !self.world.allocator.alive(es@[k])
                        ==> #[trigger] self.agents_to_remove@.contains(es@[k]),
                forall|j: int, k: int| 0 <= j < k < es@.len() ==> es@[j].index < es@[k].index,
                player_coord == old(self).world.spec_coord(old(self).player),
                self.behaviour_context.spec_dist() == old(self).behaviour_context.spec_dist(),
                self.behaviour_context.spec_size() == old(self).behaviour_context.spec_size(),
                ws.len() == i + 1,
                ss.len() == i + 1,
                ws[0] == old(self).world,
                ss[0] == old(self).rng.state,
                ws[i as int] == self.world,
                ss[i as int] == self.rng.state,
                forall|k: int|
                    0 <= k < i ==> #[trigger] npc_step(
                        ws[k],
                        ws[k + 1],
                        ss[k],
                        ss[k + 1],
                        es@[k],
                        player_coord,
                        old(self).behaviour_context.spec_dist(),
                    ),
            decreases es.len() - i,
        {
            let e = es[i];
            let ghost tr0 = self.agents_to_remove@;
            let ghost w0 = self.world;
            if !self.world.entity_exists(e) {
                self.agents_to_remove.push(e);
                proof {
                    assert(self.agents_to_remove@[self.agents_to_remove@.len() - 1] == e);
                }
            } else {
                let mut agent = self.agents.get(e).unwrap();
                let roll = self.rng.next_u64();
                let action = agent.act(e, &self.world, player_coord, &mut self.behaviour_context, roll);
                self.agents.insert(e, agent);
                proof {
                    self.world.allocator.lemma_alive_issued(e);
                    assert forall|x: Entity| #[trigger] self.agents.spec_get(x) is Some <==> old(self).agents.spec_get(x) is Some by {
                        if x.index == e.index && x != e && old(self).agents.spec_get(x) is Some {
                            old(self).agents.lemma_one_generation(x, e);
                        }
                    }
                }
                match action {
                    Some(input) => {
                        self.world.apply_input(e, input);
                    },
                    None => {},
                }
            }
            proof {
                assert forall|k: int|
                    0 <= k < i + 1 && !self.world.allocator.alive(es@[k]) implies #[trigger] self.agents_to_remove@.contains(
                    es@[k],
                ) by {
                    if k < i {
                        if w0.allocator.alive(es@[k]) {
                            assert(self.world.allocator.alive(es@[k]));
                        }
                        assert(tr0.contains(es@[k]));
                        let m = choose|m: int| 0 <= m < tr0.len() && tr0[m] == es@[k];
                        assert(self.agents_to_remove@[m] == es@[k]);
                    } else {
                        if w0.allocator.alive(e) {
                            assert(self.world.allocator.alive(e));
                        } else {
                            assert(self.agents_to_remove@[self.agents_to_remove@.len() - 1] == e);
                        }
                    }
                }
            }
            proof {
                let ws0 = ws;
                let ss0 = ss;
                ws = ws.push(self.world);
                ss = ss.push(self.rng.state);
                assert forall|k: int|
                    0 <= k < i + 1 implies #[trigger] npc_step(
                    ws[k],
                    ws[k + 1],
                    ss[k],
                    ss[k + 1],
                    es@[k],
                    player_coord,
                    old(self).behaviour_context.spec_dist(),
                ) by {
                    if k < i {
                        assert(ws[k] == ws0[k] && ws[k + 1] == ws0[k + 1]);
                        assert(ss[k] == ss0[k] && ss[k + 1] == ss0[k + 1]);
                    }
                }
            }
            i += 1;
        }
        proof {
            assert(npc_trace(
                old(self).world,
                self.world,
                old(self).rng.state,
                self.rng.state,
                old(self).agents,
                player_coord,
                old(self).behaviour_context.spec_dist(),
                es@,
                ws,
                ss,
            ));
        }
        let ghost mid = self.agents;
        let ghost wend = self.world;
        let ghost rend = self.rng;
        let ghost bend = self.behaviour_context;
        let mut j: usize = 0;
        while j < self.agents_to_remove.len()
            invariant
                self.wf(),
                self.world == wend,
                self.rng == rend,
                self.behaviour_context == bend,
                issued_kept(old(self).world, self.world),
                j <= self.agents_to_remove@.len(),
                self.world.size == old(self).spec_world().size,
                self.player == old(self).player,
                self.last_player_info == old(self).last_player_info,
                self.events == old(self).events,
                self.frame_count == old(self).frame_count,
                self.visibility_grid == old(self).visibility_grid,
                self.world.hit_points == old(self).spec_world().hit_points,
                forall|x: Entity|
                    old(self).spec_world().allocator.alive(x) ==> #[trigger] self.world.allocator.alive(x),
                forall|x: Entity|
                    old(self).agents.spec_get(x) is None && old(self).world.allocator.alive(x)
                        ==> #[trigger] self.world.location.spec_get(x) == old(self).world.location.spec_get(x),
                self.agents.spec_get(self.player) is None,
                forall|k: int|
                    0 <= k < self.agents_to_remove@.len() ==> !old(self).spec_world().allocator.alive(
                        #[trigger] self.agents_to_remove@[k],
                    ),
                forall|k: int|
                    0 <= k < es@.len() && !self.world.allocator.alive(es@[k])
                        ==> #[trigger] self.agents_to_remove@.contains(es@[k]),
                forall|k: int| 0 <= k < j ==> self.agents.spec_get(#[trigger] self.agents_to_remove@[k]) is None,
                forall|x: Entity|
                    #[trigger] self.agents.spec_get(x) is Some ==> mid.spec_get(x) is Some,
                forall|x: Entity|
                    mid.spec_get(x) is Some && old(self).spec_world().allocator.alive(x) ==> #[trigger] self.agents.spec_get(x) is Some,
            decreases self.agents_to_remove.len() - j,
        {
            let e = self.agents_to_remove[j];
            self.agents.remove(e);
            j += 1;
        }
        proof {
            assert forall|x: Entity|
                #[trigger] self.agents.spec_get(x) is Some implies old(self).agents.spec_get(x) is Some
                && old(self).world.allocator.alive(x) by {
                assert(mid.spec_get(x) is Some);
                assert(old(self).agents.spec_get(x) is Some);
                assert(old(self).world.allocator.issued(x));
                assert(es@.contains(x));
                let k = choose|k: int| 0 <= k < es@.len() && es@[k] == x;
                if !old(self).world.allocator.alive(x) {
                    assert(!self.world.allocator.alive(x));
                    assert(self.agents_to_remove@.contains(es@[k]));
                    let m = choose|m: int| 0 <= m < self.agents_to_remove@.len() && self.agents_to_remove@[m] == x;
                    assert(self.agents.spec_get(self.agents_to_remove@[m]) is None);
                }
            }
        }
        self.agents_to_remove.clear();
        proof {
            assert(npc_trace(
                old(self).spec_world(),
                self.spec_world(),
                old(self).spec_rng().state,
                self.spec_rng().state,
                old(self).spec_agents(),
                old(self).spec_world().spec_coord(old(self).spec_player()),
                old(self).spec_behaviour().spec_dist(),
                es@,
                ws,
                ss,
            ));
        }
    }
}

impl Game {
    fn update_behaviour(&mut self)
        requires
            old(self).wf(),
        ensures
            final(self).wf(),
            final(self).world == old(self).world,
            final(self).player == old(self).player,
            final(self).last_player_info == old(self).last_player_info,
            final(self).events == old(self).events,
            final(self).frame_count == old(self).frame_count,
            final(self).agents == old(self).agents,
            final(self).rng == old(self).rng,
            final(self).visibility_grid == old(self).visibility_grid,
    {
        self.behaviour_context.update(self.player, &self.world);
    }

    /// Plays one turn. While gameplay is blocked nothing changes. Otherwise the
    /// player acts, visibility is recomputed, every NPC acts once, and the
    /// player's report is refreshed. Returns `GameOver` exactly when the
    /// reported hit points of the player are 0.
    pub fn handle_input(&mut self, input: Input, config: &Config) -> (r: Option<GameControlFlow>)
        requires
            old(self).wf(),
        ensures
            final(self).wf(),
            r is Some <==> final(self).spec_game_over(),
            final(self).spec_world().size == old(self).spec_world().size,
            (exists|e: Entity| #[trigger] old(self).spec_world().blocks_gameplay.spec_get(e) is Some)
                ==> *final(self) == *old(self),
            !(exists|e: Entity| #[trigger] old(self).spec_world().blocks_gameplay.spec_get(e) is Some)
                ==> {
                &&& final(self).spec_player_info() == report(
                    old(self).spec_player_info(),
                    old(self).spec_player(),
                    final(self).spec_world(),
                )
                &&& final(self).spec_world().hit_points == old(self).spec_world().hit_points
                &&& old(self).spec_world().spec_coord(old(self).spec_player()) is Some ==> final(self).spec_visibility().spec_cells()[final(self).spec_world().size.index_of(
                    final(self).spec_world().spec_coord(old(self).spec_player()).unwrap(),
                )].visibility == crate::visibility::CellVisibility::Visible
                &&& match input {
                    Input::Walk(dir) => walk_outcome(
                        old(self).spec_world(),
                        final(self).spec_world(),
                        old(self).spec_player(),
                        dir,
                    ),
                    _ => true,
                }
                &&& exists|w1: World|
                    #[trigger] input_outcome(old(self).spec_world(), w1, old(self).spec_player(), input)
                        && after_player_action(*old(self), *final(self), w1, config.omniscient)
            },
            old(self).spec_game_over() ==> final(self).spec_game_over(),
            final(self).spec_player() == old(self).spec_player(),
    {
        if self.is_gameplay_blocked() {
            return if self.is_game_over() {
                Some(GameControlFlow::GameOver)
            } else {
                None
            };
        }
        let ghost w0 = self.world;
        self.world.apply_input(self.player, input);
        let ghost w1 = self.world;
        self.update_visibility(config);
        let ghost v1 = self.visibility_grid;
        proof {
            if w1.spec_coord(self.player) is Some {
                let c = w1.spec_coord(self.player).unwrap();
                assert(v1.spec_cells()[w1.size.index_of(c)].visibility
                    == crate::visibility::CellVisibility::Visible);
            }
        }
        self.update_behaviour();
        let ghost gm = *self;
        self.npc_turn();
        let ghost gn = *self;
        proof {
            if w0.allocator.alive(self.player) {
                assert(w1.allocator.alive(self.player));
            }
            if w0.location.spec_get(self.player) is Some {
                assert(w0.allocator.alive(self.player));
                assert(w1.location.spec_get(self.player) is Some);
            }
            if w1.location.spec_get(self.player) is Some {
                assert(w1.allocator.alive(self.player));
                assert(self.world.location.spec_get(self.player) == w1.location.spec_get(self.player));
                assert(self.visibility_grid == v1);
            }
        }
        self.update_last_player_info();
        proof {
            assert(input_outcome(old(self).spec_world(), w1, old(self).spec_player(), input));
            assert(self.visibility_grid == v1);
            assert(gm.spec_world() == w1);
            assert(gm.spec_rng() == old(self).spec_rng());
            assert(gm.spec_agents() == old(self).spec_agents());
            let (es, ws, ss) = choose|es: Seq<Entity>, ws: Seq<World>, ss: Seq<u64>|
                npc_trace(
                    gm.spec_world(),
                    gn.spec_world(),
                    gm.spec_rng().state,
                    gn.spec_rng().state,
                    gm.spec_agents(),
                    gm.spec_world().spec_coord(gm.spec_player()),
                    gm.spec_behaviour().spec_dist(),
                    es,
                    ws,
                    ss,
                );
            assert(npc_trace(
                w1,
                self.spec_world(),
                old(self).spec_rng().state,
                self.spec_rng().state,
                old(self).spec_agents(),
                w1.spec_coord(old(self).spec_player()),
                self.spec_behaviour().spec_dist(),
                es,
                ws,
                ss,
            ));
            assert(after_player_action(*old(self), *self, w1, config.omniscient));
        }
        if self.is_game_over() {
            Some(GameControlFlow::GameOver)
        } else {
            None
        }
    }

    /// Runs the NPCs once without a player action, unless gameplay is blocked.
    pub fn handle_npc_turn(&mut self)
        requires
            old(self).wf(),
        ensures
            final(self).wf(),
            final(self).spec_player_info() == old(self).spec_player_info(),
            final(self).spec_world().hit_points == old(self).spec_world().hit_points,
            (exists|e: Entity| #[trigger] old(self).spec_world().blocks_gameplay.spec_get(e) is Some)
                ==> *final(self) == *old(self),
            !(exists|e: Entity| #[trigger] old(self).spec_world().blocks_gameplay.spec_get(e) is Some)
                ==> forall|x: Entity|
                #[trigger] final(self).spec_agents().spec_get(x) is Some <==> (old(self).spec_agents().spec_get(x)
                    is Some && old(self).spec_world().allocator.alive(x)),
            !(exists|e: Entity| #[trigger] old(self).spec_world().blocks_gameplay.spec_get(e) is Some)
                ==> exists|es: Seq<Entity>, ws: Seq<World>, ss: Seq<u64>|
                npc_trace(
                    old(self).spec_world(),
                    final(self).spec_world(),
                    old(self).spec_rng().state,
                    final(self).spec_rng().state,
                    old(self).spec_agents(),
                    old(self).spec_world().spec_coord(old(self).spec_player()),
                    final(self).spec_behaviour().spec_dist(),
                    es,
                    ws,
                    ss,
                ),
    {
        if !self.is_gameplay_blocked() {
            self.update_behaviour();
            let ghost gm = *self;
            self.npc_turn();
            proof {
                let (es, ws, ss) = choose|es: Seq<Entity>, ws: Seq<World>, ss: Seq<u64>|
                    npc_trace(
                        gm.spec_world(),
                        self.spec_world(),
                        gm.spec_rng().state,
                        self.spec_rng().state,
                        gm.spec_agents(),
                        gm.spec_world().spec_coord(gm.spec_player()),
                        gm.spec_behaviour().spec_dist(),
                        es,
                        ws,
                        ss,
                    );
                assert(npc_trace(
                    old(self).spec_world(),
                    self.spec_world(),
                    old(self).spec_rng().state,
                    self.spec_rng().state,
                    old(self).spec_agents(),
                    old(self).spec_world().spec_coord(old(self).spec_player()),
                    self.spec_behaviour().spec_dist(),
                    es,
                    ws,
                    ss,
                ));
            }
        }
    }

    /// Advances real time by `since_last_tick_ms` milliseconds, whether or not
    /// gameplay is blocked: the events of the previous tick are dropped,
    /// visibility is recomputed, every timed effect advances, the frame count
    /// grows by one and the player's report is refreshed. Returns `GameOver`
    /// exactly when the reported hit points of the player are 0.
    pub fn handle_tick(&mut self, since_last_tick_ms: u64, config: &Config) -> (r: Option<GameControlFlow>)
        requires
            old(self).wf(),
        ensures
            final(self).wf(),
            r is Some <==> final(self).spec_game_over(),
            final(self).spec_world().size == old(self).spec_world().size,
            final(self).spec_frame_count() == old(self).spec_frame_count().wrapping_add(1),
            exists|es: Seq<Entity>, ws: Seq<World>, evs: Seq<Seq<ExternalEvent>>|
                crate::realtime::tick_trace(
                    old(self).spec_world(),
                    final(self).spec_world(),
                    Seq::empty(),
                    final(self).spec_events(),
                    since_last_tick_ms,
                    es,
                    ws,
                    evs,
                ),
            old(self).spec_world().spec_coord(old(self).spec_player()) is Some ==> final(self).spec_visibility().spec_cells()[old(self).spec_world().size.index_of(
                old(self).spec_world().spec_coord(old(self).spec_player()).unwrap(),
            )].visibility == crate::visibility::CellVisibility::Visible,
            final(self).spec_player_info() == report(
                old(self).spec_player_info(),
                old(self).spec_player(),
                final(self).spec_world(),
            ),
            old(self).spec_game_over() ==> final(self).spec_game_over(),
            final(self).spec_player() == old(self).spec_player(),
    {
        self.events.clear();
        self.update_visibility(config);
        self.world.animation_tick(since_last_tick_ms, &mut self.events);
        self.frame_count = self.frame_count.wrapping_add(1);
        self.update_last_player_info();
        if self.is_game_over() {
            Some(GameControlFlow::GameOver)
        } else {
            None
        }
    }

    /// The events of the last tick.
    pub fn events(&self) -> (r: Vec<ExternalEvent>)
        ensures
            r@ == self.spec_events(),
    {
        self.events.clone()
    }

    /// The player's state as of the last turn or tick.
    pub fn player_info(&self) -> (r: CharacterInfo)
        ensures
            r == self.spec_player_info(),
    {
        self.last_player_info
    }

    pub fn player(&self) -> (r: Entity)
        ensures
            r == self.spec_player(),
    {
        self.player
    }

    pub fn frame_count(&self) -> (r: u64)
        ensures
            r == self.spec_frame_count(),
    {
        self.frame_count
    }

    /// The state of the random stream, from which it resumes.
    pub fn rng_state(&self) -> (r: u64)
        ensures
            r == self.spec_rng().state,
    {
        self.rng.state
    }

    pub fn world_size(&self) -> (r: Size)
        ensures
            r == self.spec_world().size,
    {
        self.world.size
    }

    pub fn world(&self) -> (r: &World)
        ensures
            *r == self.spec_world(),
    {
        &self.world
    }

    pub fn to_render_entities(&self) -> (r: Vec<ToRenderEntity>)
        requires
            self.wf(),
        ensures
            forall|k: int| 0 <= k < r@.len() ==> self.spec_world().renders(#[trigger] r@[k]),
            forall|e: Entity| #[trigger] self.spec_world().drawn(e) ==> r@.contains(
                self.spec_world().render_record(e),
            ),
            exists|src: Seq<Entity>| #[trigger] self.spec_world().records_of(src, r@),
    {
        self.world.to_render_entities()
    }

    pub fn visibility_grid(&self) -> (r: &VisibilityGrid)
        ensures
            *r == self.spec_visibility(),
    {
        &self.visibility_grid
    }

    /// Whether a wall stands at `c`; `false` outside the map.
    pub fn contains_wall(&self, c: Coord) -> (r: bool)
        requires
            self.wf(),
        ensures
            r == (self.spec_world().size.contains(c) && self.spec_world().spec_wall_at(c)),
    {
        self.world.is_wall_at_coord(c)
    }
}

/// Width, height and length of the current line after the first `n` bytes of a
/// terrain text have been read.
pub open spec fn dims_state(t: Seq<u8>, n: int) -> (int, int, int)
    decreases n,
{
    if n <= 0 {
        (0, 0, 0)
    } else {
        let (w, h, c) = dims_state(t, n - 1);
        if t[n - 1] == 10u8 {
            if c > 0 {
                (if h == 0 { c } else { w }, h + 1, 0)
            } else {
                (w, h, c)
            }
        } else {
            (w, h, c + 1)
        }
    }
}

/// Width and height of a terrain text: the length of its first non-empty line
/// and the number of non-empty lines.
pub open spec fn terrain_size(t: Seq<u8>) -> (int, int) {
    let (w, h, c) = dims_state(t, t.len() as int);
    if c > 0 {
        (if h == 0 { c } else { w }, h + 1)
    } else {
        (w, h)
    }
}

/// The column and row that byte `n` of a terrain text falls on.
pub open spec fn pos_after(t: Seq<u8>, n: int) -> (int, int)
    decreases n,
{
    if n <= 0 {
        (0, 0)
    } else {
        let (x, y) = pos_after(t, n - 1);
        if t[n - 1] == 10u8 {
            (0, if x > 0 { y + 1 } else { y })
        } else {
            (x + 1, y)
        }
    }
}

/// Columns and rows are never negative.
pub proof fn lemma_pos_nonneg(t: Seq<u8>, n: int)
    ensures
        pos_after(t, n).0 >= 0,
        pos_after(t, n).1 >= 0,
    decreases n,
{
    if n > 0 {
        lemma_pos_nonneg(t, n - 1);
    }
}

/// Byte `j` of a terrain text is drawn on the map: a printable byte whose
/// column and row fall inside the map.
pub open spec fn placed(t: Seq<u8>, j: int) -> bool {
    &&& t[j] != 10u8
    &&& t[j] >= 32u8
    &&& t[j] != 127u8
    &&& pos_after(t, j).0 < terrain_size(t).0
    &&& pos_after(t, j).1 < terrain_size(t).1
}

/// The map cell of byte `j` of a terrain text.
pub open spec fn byte_cell(t: Seq<u8>, j: int) -> Coord {
    Coord { x: pos_after(t, j).0 as i32, y: pos_after(t, j).1 as i32 }
}

/// Some `@` of a terrain text is drawn on the map.
pub open spec fn has_player(t: Seq<u8>) -> bool {
    exists|j: int| 0 <= j < t.len() && #[trigger] placed(t, j) && t[j] == 64u8
}

/// What byte `j` of a terrain text leaves in the map: a wall for `#`, an NPC
/// with an agent for `f` and `h`.
pub open spec fn terrain_cell_built(w: World, agents: ComponentTable<Agent>, t: Seq<u8>, j: int) -> bool {
    &&& t[j] == 35u8 ==> w.spec_wall_at(byte_cell(t, j))
    &&& (t[j] == 102u8 || t[j] == 104u8) ==> exists|e: Entity|
        #[trigger] agents.spec_get(e) is Some && w.location.spec_get(e) == Some(
            crate::world::Location { coord: byte_cell(t, j), layer: Layer::Character },
        )
}

fn terrain_dimensions(terrain: &[u8]) -> (r: (usize, usize))
    ensures
        r.0 == terrain_size(terrain@).0,
        r.1 == terrain_size(terrain@).1,
{
    let mut width: usize = 0;
    let mut height: usize = 0;
    let mut cur: usize = 0;
    let mut i: usize = 0;
    while i < terrain.len()
        invariant
            i <= terrain@.len(),
            cur <= i,
            width <= i,
            height + cur <= i,
            dims_state(terrain@, i as int) == (width as int, height as int, cur as int),
        decreases terrain.len() - i,
    {
        if terrain[i] == 10u8 {
            if cur > 0 {
                if height == 0 {
                    width = cur;
                }
                height += 1;
                cur = 0;
            }
        } else {
            cur += 1;
        }
        i += 1;
    }
    if cur > 0 {
        if height == 0 {
            width = cur;
        }
        height += 1;
    }
    (width, height)
}

impl Game {
    /// After a floor spawn at `c` from `w0`, a free slot of `c` on another
    /// layer is still free, and the allocator still has room for one more.
    proof fn lemma_slot_after_floor(w0: &World, w1: &World, r: Option<Entity>, c: Coord, l: Layer)
        requires
            w0.wf(),
            w1.wf(),
            l != Layer::Floor,
            crate::world::spawn_frame(*w0, *w1, r),
            r is Some ==> w1.location.spec_get(r.unwrap()) == Some(
                crate::world::Location { coord: c, layer: Layer::Floor },
            ),
        ensures
            w0.size.contains(c) && w0.spec_occupant(c, l) is None ==> w1.spec_occupant(c, l) is None,
            w0.allocator.slot_count() + 2 < u32::MAX ==> !w1.allocator.is_full(),
    {
        if w0.size.contains(c) {
            assert forall|x: Entity| !w0.allocator.alive(x) implies #[trigger] w1.location.spec_get(x)
                != Some(crate::world::Location { coord: c, layer: l }) by {
                if r != Some(x) {
                    assert(w1.location.spec_get(x) == w0.location.spec_get(x));
                    assert(w0.location.spec_get(x) is None);
                }
            }
            crate::world::lemma_occupant_kept(w0, w1, c, l);
        }
        if w1.allocator.is_full() {
            w1.allocator.lemma_full_slot_count();
        }
    }

    /// Spawns what one terrain character stands for at `c`, recording NPCs in
    /// `agents`. Returns the player when the character is `@`.
    fn spawn_terrain_cell(
        world: &mut World,
        agents: &mut ComponentTable<Agent>,
        c: Coord,
        ch: u8,
    ) -> (r: Option<Entity>)
        requires
            old(world).wf(),
            old(agents).wf(),
            forall|x: Entity| #[trigger] old(agents).spec_get(x) is Some ==> old(world).allocator.issued(x),
        ensures
            final(world).wf(),
            final(agents).wf(),
            final(world).size == old(world).size,
            r is Some ==> ch == 64u8,
            r is Some ==> final(world).spec_coord(r.unwrap()) == Some(c),
            r matches Some(p) ==> {
                &&& final(agents).spec_get(p) is None
                &&& final(world).location.spec_get(p) is Some
                &&& final(world).allocator.alive(p)
                &&& final(world).hit_points.spec_get(p) == Some(
                    HitPoints { current: crate::world::PLAYER_HIT_POINTS, max: crate::world::PLAYER_HIT_POINTS },
                )
            },
            forall|x: Entity|
                old(world).allocator.alive(x) ==> #[trigger] final(world).location.spec_get(x) == old(world).location.spec_get(x) && final(world).hit_points.spec_get(x) == old(world).hit_points.spec_get(x)
                    && final(world).allocator.alive(x),
            forall|x: Entity|
                old(world).allocator.alive(x) && old(agents).spec_get(x) is None ==> #[trigger] final(agents).spec_get(x) is None,
            forall|x: Entity|
                #[trigger] final(agents).spec_get(x) is Some ==> final(world).allocator.issued(x),
            forall|x: Entity|
                old(world).allocator.alive(x) ==> #[trigger] final(world).tile.spec_get(x) == old(world).tile.spec_get(x),
            forall|x: Entity|
                old(world).allocator.alive(x) && old(agents).spec_get(x) is Some ==> #[trigger] final(agents).spec_get(x)
                    is Some,
            forall|x: Entity|
                !old(world).allocator.alive(x) && #[trigger] final(world).location.spec_get(x) is Some
                    ==> final(world).location.spec_get(x).unwrap().coord == c,
            final(world).allocator.slot_count() <= old(world).allocator.slot_count() + 2,
            old(world).allocator.slot_count() + 2 < u32::MAX && old(world).size.contains(c) ==> {
                &&& (ch == 35u8 && old(world).spec_occupant(c, Layer::Feature) is None ==> final(world).spec_wall_at(c))
                &&& (ch == 64u8 && old(world).spec_occupant(c, Layer::Character) is None ==> r is Some
                    && final(world).spec_coord(r.unwrap()) == Some(c))
                &&& ((ch == 102u8 || ch == 104u8) && old(world).spec_occupant(c, Layer::Character) is None
                    ==> exists|e: Entity| #[trigger] final(agents).spec_get(e) is Some && final(world).location.spec_get(e)
                    == Some(crate::world::Location { coord: c, layer: Layer::Character }))
            },
    {
        let ghost w0 = *world;
        if ch == 46u8 {
            // '.'
            world.spawn_floor(c);
            None
        } else if ch == 42u8 {
            // '*'
            world.spawn_floor(c);
            let level = TERRAIN_LIGHT_LEVEL;
            let light = Light {
                colour: Rgb24 { r: level, g: level, b: level },
                intensity: level,
                range: TERRAIN_LIGHT_RANGE,
            };
            world.spawn_light(c, light);
            None
        } else if ch == 44u8 {
            // ','
            world.spawn_carpet(c);
            None
        } else if ch == 35u8 {
            // '#'
            let fl = world.spawn_floor(c);
            let ghost w1 = *world;
            proof {
                Game::lemma_slot_after_floor(&w0, &w1, fl, c, Layer::Feature);
            }
            let wall = world.spawn_wall(c);
            proof {
                if w0.allocator.slot_count() + 2 < u32::MAX && w0.size.contains(c)
                    && w0.spec_occupant(c, Layer::Feature) is None {
                    let e = wall.unwrap();
                    crate::geom::lemma_index_coord(world.size, c);
                    assert(world.location.spec_get(e) is Some);
                    assert(world.spec_occupant(c, Layer::Feature) == Some(e));
                }
            }
            None
        } else if ch == 64u8 {
            // '@'
            let fl = world.spawn_floor(c);
            let ghost w1 = *world;
            proof {
                Game::lemma_slot_after_floor(&w0, &w1, fl, c, Layer::Character);
            }
            world.spawn_player(c)
        } else if ch == 102u8 || ch == 104u8 {
            // 'f' and 'h'
            let fl = world.spawn_floor(c);
            let ghost w1 = *world;
            proof {
                Game::lemma_slot_after_floor(&w0, &w1, fl, c, Layer::Character);
            }
            let npc = if ch == 102u8 {
                world.spawn_former_human(c)
            } else {
                world.spawn_human(c)
            };
            match npc {
                Some(e) => {
                    let ghost a0 = *agents;
                    agents.insert(e, Agent::new());
                    proof {
                        world.allocator.lemma_alive_issued(e);
                        assert forall|x: Entity|
                            w0.allocator.alive(x) && a0.spec_get(x) is None implies #[trigger] agents.spec_get(
                            x,
                        ) is None by {
                            if x.index == e.index {
                                assert(x != e);
                            }
                        }
                        assert forall|x: Entity|
                            w0.allocator.alive(x) && a0.spec_get(x) is Some implies #[trigger] agents.spec_get(
                            x,
                        ) is Some by {
                            if x.index == e.index {
                                assert(world.allocator.alive(x));
                                world.allocator.lemma_unique_generation(x, e);
                            }
                        }
                        assert(agents.spec_get(e) is Some);
                    }
                },
                None => {},
            }
            None
        } else {
            None
        }
    }
}

impl Game {
    /// Builds a game from a terrain text, one line per map row: `.` floor,
    /// `*` lit floor, `,` carpet, `#` wall, `@` the player, `f` a hostile
    /// former human, `h` a passive human. Other characters leave their cell
    /// empty. The random stream starts from `seed`. Returns `None` when the
    /// text has no player or its dimensions are outside `1..=MAX_SIDE`; a
    /// text of fitting dimensions with an `@` on the map, and short enough
    /// that its entities fit the allocator, always gives a game whose walls,
    /// NPCs and player stand where the text puts them.
    pub fn new(config: &Config, seed: u64, terrain: &[u8]) -> (r: Option<Game>)
        ensures
            !terrain@.contains(64u8) ==> r is None,
            !(1 <= terrain_size(terrain@).0 <= MAX_SIDE && 1 <= terrain_size(terrain@).1 <= MAX_SIDE)
                ==> r is None,
            1 <= terrain_size(terrain@).0 <= MAX_SIDE && 1 <= terrain_size(terrain@).1 <= MAX_SIDE
                && has_player(terrain@) && 2 * terrain@.len() + 4 < u32::MAX ==> r is Some,
            r is Some ==> {
                let g = r.unwrap();
                &&& g.wf()
                &&& g.spec_world().size.width == terrain_size(terrain@).0
                &&& g.spec_world().size.height == terrain_size(terrain@).1
                &&& g.spec_frame_count() == 0
                &&& g.spec_events().len() == 0
                &&& g.spec_player_info().hit_points == (HitPoints {
                    current: crate::world::PLAYER_HIT_POINTS,
                    max: crate::world::PLAYER_HIT_POINTS,
                })
                &&& !g.spec_game_over()
                &&& g.spec_rng().state == (if seed == 0 {
                    crate::rng::NONZERO_SEED
                } else {
                    seed
                })
                &&& exists|j: int|
                    0 <= j < terrain@.len() && #[trigger] placed(terrain@, j) && terrain@[j] == 64u8
                        && g.spec_world().spec_coord(g.spec_player()) == Some(byte_cell(terrain@, j))
                &&& 2 * terrain@.len() + 4 < u32::MAX ==> forall|j: int|
                    0 <= j < terrain@.len() && #[trigger] placed(terrain@, j) ==> terrain_cell_built(
                        g.spec_world(),
                        g.spec_agents(),
                        terrain@,
                        j,
                    )
            },
    {
        let (width, height) = terrain_dimensions(terrain);
        if width == 0 || height == 0 || width > MAX_SIDE as usize || height > MAX_SIDE as usize {
            return None;
        }
        let size = Size::new(width as u32, height as u32);
        let mut world = World::new(size);
        let mut agents: ComponentTable<Agent> = ComponentTable::new();
        let mut player: Option<Entity> = None;
        let mut x: usize = 0;
        let mut y: usize = 0;
        let mut i: usize = 0;
        let ghost t = terrain@;
        while i < terrain.len()
            invariant
                t == terrain@,
                world.wf(),
                agents.wf(),
                world.size == size,
                size.wf(),
                width == size.width,
                height == size.height,
                width == terrain_size(t).0,
                height == terrain_size(t).1,
                i <= t.len(),
                x <= i,
                y <= i,
                x == pos_after(t, i as int).0,
                y == pos_after(t, i as int).1,
                forall|e: Entity| #[trigger] agents.spec_get(e) is Some ==> world.allocator.issued(e),
                world.allocator.slot_count() <= 2 * i,
                forall|c: Coord, l: Layer|
                    size.contains(c) && (c.y > y || (c.y == y && c.x >= x)) ==> #[trigger] world.spec_occupant(
                        c,
                        l,
                    ) is None,
                forall|j: int|
                    0 <= j < i && #[trigger] placed(t, j) ==> (pos_after(t, j).1 < y || (pos_after(t, j).1 == y
                        && pos_after(t, j).0 < x)),
                2 * t.len() + 4 < u32::MAX ==> forall|j: int|
                    0 <= j < i && #[trigger] placed(t, j) ==> terrain_cell_built(world, agents, t, j),
                player is Some ==> exists|j: int| 0 <= j < i && #[trigger] placed(t, j) && t[j] == 64u8,
                2 * t.len() + 4 < u32::MAX && (exists|j: int| 0 <= j < i && #[trigger] placed(t, j) && t[j]
                    == 64u8) ==> player is Some,
                player matches Some(p) ==> {
                    &&& agents.spec_get(p) is None
                    &&& world.location.spec_get(p) is Some
                    &&& world.allocator.alive(p)
                    &&& world.hit_points.spec_get(p) == Some(
                        HitPoints {
                            current: crate::world::PLAYER_HIT_POINTS,
                            max: crate::world::PLAYER_HIT_POINTS,
                        },
                    )
                    &&& exists|j: int|
                        0 <= j < i && #[trigger] placed(t, j) && t[j] == 64u8 && world.spec_coord(p) == Some(
                            byte_cell(t, j),
                        )
                },
            decreases terrain.len() - i,
        {
            let b = terrain[i];
            let ghost w0 = world;
            let ghost a0 = agents;
            let ghost p0 = player;
            if b == 10u8 {
                if x > 0 {
                    y += 1;
                }
                x = 0;
                proof {
                    assert(!placed(t, i as int));
                }
            } else {
                if b >= 32u8 && b != 127u8 && x < width && y < height {
                    let c = Coord::new(x as i32, y as i32);
                    proof {
                        assert(placed(t, i as int));
                        assert(byte_cell(t, i as int) == c);
                    }
                    let spawned = Game::spawn_terrain_cell(&mut world, &mut agents, c, b);
                    match spawned {
                        Some(p) => {
                            player = Some(p);
                        },
                        None => {},
                    }
                    proof {
                        assert forall|c2: Coord, l: Layer|
                            size.contains(c2) && (c2.y > y || (c2.y == y && c2.x >= x + 1))
                                implies #[trigger] world.spec_occupant(c2, l) is None by {
                            assert(w0.spec_occupant(c2, l) is None);
                            crate::world::lemma_occupant_kept(&w0, &world, c2, l);
                        }
                        if 2 * t.len() + 4 < u32::MAX {
                            assert(w0.spec_occupant(c, Layer::Feature) is None);
                            assert(w0.spec_occupant(c, Layer::Character) is None);
                            assert forall|j: int|
                                0 <= j < i + 1 && #[trigger] placed(t, j) implies terrain_cell_built(
                                world,
                                agents,
                                t,
                                j,
                            ) by {
                                if j < i {
                                    assert(terrain_cell_built(w0, a0, t, j));
                                    let cj = byte_cell(t, j);
                                    lemma_pos_nonneg(t, j);
                                    lemma_pos_nonneg(t, i as int);
                                    assert(cj != c);
                                    crate::world::lemma_occupant_kept(&w0, &world, cj, Layer::Feature);
                                    if t[j] == 35u8 {
                                        let f = w0.spec_occupant(cj, Layer::Feature).unwrap();
                                        crate::geom::lemma_index_coord(size, cj);
                                        assert(w0.location.spec_get(f) is Some);
                                        assert(world.tile.spec_get(f) == w0.tile.spec_get(f));
                                    }
                                    if t[j] == 102u8 || t[j] == 104u8 {
                                        let e = choose|e: Entity|
                                            #[trigger] a0.spec_get(e) is Some && w0.location.spec_get(e) == Some(
                                                crate::world::Location { coord: cj, layer: Layer::Character },
                                            );
                                        assert(w0.allocator.alive(e));
                                        assert(agents.spec_get(e) is Some);
                                    }
                                }
                            }
                        }
                        if spawned is None && p0 is Some {
                            let p = p0.unwrap();
                            assert(world.location.spec_get(p) == w0.location.spec_get(p));
                            let j = choose|j: int|
                                0 <= j < i && #[trigger] placed(t, j) && t[j] == 64u8 && w0.spec_coord(p)
                                    == Some(byte_cell(t, j));
                            assert(world.spec_coord(p) == Some(byte_cell(t, j)));
                        }
                        if spawned is Some {
                            assert(placed(t, i as int) && t[i as int] == 64u8);
                        }
                    }
                } else {
                    proof {
                        assert(!placed(t, i as int));
                    }
                }
                x += 1;
            }
            proof {
                assert(x == pos_after(t, i as int + 1).0);
                assert(y == pos_after(t, i as int + 1).1);
                lemma_pos_nonneg(t, i as int);
                assert forall|j: int|
                    0 <= j < i + 1 && #[trigger] placed(t, j) implies (pos_after(t, j).1 < y || (pos_after(t, j).1 == y
                    && pos_after(t, j).0 < x)) by {
                    if j == i {
                        assert(b != 10u8);
                    }
                }
                if player is Some && !(exists|j: int| 0 <= j < i && #[trigger] placed(t, j) && t[j] == 64u8) {
                    assert(placed(t, i as int) && t[i as int] == 64u8);
                }
                if 2 * t.len() + 4 < u32::MAX && exists|j: int|
                    0 <= j < i + 1 && #[trigger] placed(t, j) && t[j] == 64u8 {
                    let j = choose|j: int| 0 <= j < i + 1 && #[trigger] placed(t, j) && t[j] == 64u8;
                    if j < i {
                        assert(p0 is Some);
                    } else {
                        assert(placed(t, i as int));
                    }
                }
            }
            i += 1;
        }
        let player = match player {
            Some(p) => p,
            None => {
                return None;
            },
        };
        let last_player_info = world.character_info(player).unwrap();
        let mut game = Game {
            world,
            visibility_grid: VisibilityGrid::new(size),
            player,
            last_player_info,
            rng: XorShiftRng::seed_from_u64(seed),
            frame_count: 0,
            events: Vec::new(),
            behaviour_context: BehaviourContext::new(size),
            agents,
            agents_to_remove: Vec::new(),
        };
        game.update_behaviour();
        game.update_visibility(config);
        proof {
            let j = choose|j: int|
                0 <= j < t.len() && #[trigger] placed(t, j) && t[j] == 64u8 && game.world.spec_coord(player)
                    == Some(byte_cell(t, j));
            assert(t.contains(64u8));
        }
        Some(game)
    }
}

/// Once the player is gone, or has 0 hit points, the report shows 0 hit
/// points; a report at 0 stays at 0 whatever the world becomes.
pub proof fn lemma_game_over_reported(last: CharacterInfo, player: Entity, w: World)
    ensures
        (w.location.spec_get(player) is None || w.hit_points.spec_get(player) is None
            || w.hit_points.spec_get(player).unwrap().current == 0) ==> report(
            last,
            player,
            w,
        ).hit_points.current == 0,
        last.hit_points.current == 0 ==> report(last, player, w) == last,
{
}
} // verus!
