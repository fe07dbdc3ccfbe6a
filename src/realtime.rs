use vstd::prelude::*;
use crate::entity::Entity;
use crate::geom::{chebyshev, chebyshev_distance, Coord};
use crate::world::{issued_kept, Disposition, HitPoints, Layer, Location, Tile, World};

verus! {

/// A timed effect attached to an entity.
#[derive(Clone, Copy, Debug, PartialEq, Eq, Structural)]
pub struct Effect {
    pub kind: EffectKind,
    pub elapsed: u64,
    pub duration: u64,
}

/// What happens when an effect's time is up.
#[derive(Clone, Copy, Debug, PartialEq, Eq, Structural)]
pub enum EffectKind {
    /// A projectile in flight toward `target`; it moves one cell per period.
    Movement { target: Coord },
    /// A blast that deals its damage once it has fully expanded.
    Explosion { radius: u32 },
    /// Fading remains, removed when the fade completes.
    Fade,
}

/// Something the simulation reports to the presentation layer.
#[derive(Clone, Copy, Debug, PartialEq, Eq, Structural)]
pub enum ExternalEvent {
    Explosion(Coord),
}

/// Milliseconds a projectile takes to cross one cell.
pub const MOVE_PERIOD_MS: u64 = 20;
/// Milliseconds an explosion takes to expand fully.
pub const EXPLOSION_MS: u64 = 150;
/// Milliseconds the remains of an explosion take to fade.
pub const FADE_MS: u64 = 300;
/// Chebyshev radius of a rocket's blast.
pub const EXPLOSION_RADIUS: u32 = 2;
/// Damage lost per cell of distance from the epicentre.
pub const EXPLOSION_FALLOFF: u64 = 3;

/// Damage dealt at Chebyshev distance `d` by a blast of radius `radius`: it
/// falls by a fixed step per cell and is zero beyond the radius.
pub open spec fn explosion_damage(d: int, radius: int) -> int {
    if 0 <= d <= radius {
        EXPLOSION_FALLOFF * (radius + 1 - d)
    } else {
        0
    }
}

/// Hit points after losing `dmg`, stopping at 0.
pub open spec fn after_damage(hp: HitPoints, dmg: int) -> HitPoints {
    HitPoints { current: if hp.current > dmg { (hp.current - dmg) as u32 } else { 0 }, max: hp.max }
}

/// Damage at distance `d` from the epicentre of a blast of radius `radius`.
pub fn damage_at_distance(d: u64, radius: u32) -> (r: u64)
    ensures
        r == explosion_damage(d as int, radius as int),
{
    if d <= radius as u64 {
        EXPLOSION_FALLOFF * (radius as u64 + 1 - d)
    } else {
        0
    }
}

/// The blast's damage never grows with distance, is largest at the epicentre,
/// and is positive everywhere within the radius.
pub proof fn lemma_damage_non_increasing(d1: int, d2: int, radius: int)
    requires
        0 <= d1 <= d2,
        0 <= radius,
    ensures
        explosion_damage(d2, radius) <= explosion_damage(d1, radius),
        explosion_damage(d1, radius) <= explosion_damage(0, radius),
        d2 <= radius ==> explosion_damage(d2, radius) > 0,
{
}

/// One king move from `a` toward `b` on each axis that differs.
pub open spec fn spec_step_toward(a: Coord, b: Coord) -> Coord {
    Coord {
        x: if a.x < b.x {
            (a.x + 1) as i32
        } else if a.x > b.x {
            (a.x - 1) as i32
        } else {
            a.x
        },
        y: if a.y < b.y {
            (a.y + 1) as i32
        } else if a.y > b.y {
            (a.y - 1) as i32
        } else {
            a.y
        },
    }
}

pub fn step_toward(a: Coord, b: Coord) -> (r: Coord)
    ensures
        r == spec_step_toward(a, b),
        a != b ==> chebyshev(r, b) == chebyshev(a, b) - 1,
{
    let x = if a.x < b.x {
        a.x + 1
    } else if a.x > b.x {
        a.x - 1
    } else {
        a.x
    };
    let y = if a.y < b.y {
        a.y + 1
    } else if a.y > b.y {
        a.y - 1
    } else {
        a.y
    };
    Coord { x, y }
}

/// A projectile fired at an adjacent cell reaches it in one step, so when that
/// cell can be entered the shot detonates there.
pub proof fn lemma_adjacent_target_reached_in_one_step(c: Coord, target: Coord)
    requires
        chebyshev(c, target) == 1,
    ensures
        spec_step_toward(c, target) == target,
{
}

/// Whether `x` stood within the blast at `centre` with hit points.
pub open spec fn in_blast(w: World, x: Entity, centre: Coord, radius: u32) -> bool {
    &&& w.hit_points.spec_get(x) is Some
    &&& w.location.spec_get(x) is Some
    &&& chebyshev(w.location.spec_get(x).unwrap().coord, centre) <= radius
}

/// What a blast does to one entity: inside it, the entity loses the damage for
/// its distance and is destroyed when its hit points reach 0; outside it, its
/// hit points and location stay as they were.
pub open spec fn blast_outcome(w0: World, w1: World, x: Entity, centre: Coord, radius: u32) -> bool {
    if in_blast(w0, x, centre, radius) {
        let hp = after_damage(
            w0.hit_points.spec_get(x).unwrap(),
            explosion_damage(chebyshev(w0.location.spec_get(x).unwrap().coord, centre), radius as int),
        );
        if hp.current == 0 {
            &&& !w1.allocator.alive(x)
            &&& w1.location.spec_get(x) is None
        } else {
            &&& w1.hit_points.spec_get(x) == Some(hp)
            &&& w1.location.spec_get(x) == w0.location.spec_get(x)
            &&& w1.allocator.alive(x) == w0.allocator.alive(x)
        }
    } else {
        &&& w1.hit_points.spec_get(x) == w0.hit_points.spec_get(x)
        &&& w1.location.spec_get(x) == w0.location.spec_get(x)
        &&& w1.allocator.alive(x) == w0.allocator.alive(x)
    }
}

impl World {
    /// Deals `dmg` to a character. It is destroyed when its hit points reach 0;
    /// otherwise it is marked bloodied and, if passive, turns hostile.
    fn damage_character(&mut self, e: Entity, dmg: u64)
        requires
            old(self).wf(),
            old(self).hit_points.spec_get(e) is Some,
        ensures
            final(self).wf(),
            issued_kept(*old(self), *final(self)),
            final(self).size == old(self).size,
            ({
                let hp = after_damage(old(self).hit_points.spec_get(e).unwrap(), dmg as int);
                if hp.current == 0 {
                    !final(self).allocator.alive(e) && final(self).location.spec_get(e) is None
                } else {
                    &&& final(self).hit_points.spec_get(e) == Some(hp)
                    &&& final(self).location.spec_get(e) == old(self).location.spec_get(e)
                    &&& final(self).allocator.alive(e) == old(self).allocator.alive(e)
                }
            }),
            forall|x: Entity|
                x != e ==> #[trigger] final(self).location.spec_get(x) == old(self).location.spec_get(
                    x,
                ),
            forall|x: Entity|
                x != e ==> #[trigger] final(self).hit_points.spec_get(x) == old(self).hit_points.spec_get(
                    x,
                ),
            forall|x: Entity|
                x != e ==> #[trigger] final(self).allocator.alive(x) == old(self).allocator.alive(x),
            forall|x: Entity|
                x != e ==> #[trigger] final(self).realtime.spec_get(x) == old(self).realtime.spec_get(
                    x,
                ),
    {
        let hp = self.hit_points.get(e).unwrap();
        let current: u32 = if (hp.current as u64) > dmg {
            (hp.current as u64 - dmg) as u32
        } else {
            0
        };
        if current == 0 {
            self.despawn(e);
        } else {
            self.hit_points.insert(e, HitPoints { current, max: hp.max });
            self.blood.insert(e, ());
            if self.npc.get(e) == Some(Disposition::Passive) {
                self.npc.insert(e, Disposition::Hostile);
            }
            proof {
                assert forall|x: Entity| x != e implies #[trigger] self.hit_points.spec_get(x)
                    == old(self).hit_points.spec_get(x) by {
                    if x.index == e.index && old(self).hit_points.spec_get(x) is Some {
                        old(self).hit_points.lemma_one_generation(x, e);
                    }
                }
            }
        }
    }
}


impl World {
    /// Applies a blast at `centre`: every character within Chebyshev distance
    /// `radius` loses `explosion_damage` of its distance, and is destroyed when
    /// its hit points reach 0. Nothing else changes location or hit points.
    pub fn apply_explosion(&mut self, centre: Coord, radius: u32)
        requires
            old(self).wf(),
        ensures
            final(self).wf(),
            issued_kept(*old(self), *final(self)),
            final(self).size == old(self).size,
            forall|x: Entity| #[trigger] blast_outcome(*old(self), *final(self), x, centre, radius),
            forall|x: Entity|
                old(self).realtime.spec_get(x) is Some && old(self).hit_points.spec_get(x) is None
                    ==> #[trigger] final(self).realtime.spec_get(x) == old(self).realtime.spec_get(x),
    {
        let ghost w0 = *self;
        let es = self.hit_points.entities();
        let mut i: usize = 0;
        proof {
            assert forall|x: Entity|
                (forall|k: int| 0 <= k < es@.len() ==> es@[k] != x) implies #[trigger] blast_outcome(
                w0,
                *self,
                x,
                centre,
                radius,
            ) by {
                if w0.hit_points.spec_get(x) is Some {
                    assert(es@.contains(x));
                }
            }
        }
        while i < es.len()
            invariant
                self.wf(),
                self.size == w0.size,
                issued_kept(w0, *self),
                i <= es@.len(),
                forall|k: int| 0 <= k < es@.len() ==> (#[trigger] w0.hit_points.spec_get(es@[k])) is Some,
                forall|e: Entity| w0.hit_points.spec_get(e) is Some ==> es@.contains(e),
                forall|j: int, k: int| 0 <= j < k < es@.len() ==> es@[j].index < es@[k].index,
                forall|k: int|
                    i <= k < es@.len() ==> {
                        &&& (#[trigger] self.hit_points.spec_get(es@[k])) == w0.hit_points.spec_get(es@[k])
                        &&& self.location.spec_get(es@[k]) == w0.location.spec_get(es@[k])
                        &&& self.allocator.alive(es@[k]) == w0.allocator.alive(es@[k])
                    },
                forall|x: Entity|
                    (forall|k: int| i <= k < es@.len() ==> es@[k] != x) ==> #[trigger] blast_outcome(
                        w0,
                        *self,
                        x,
                        centre,
                        radius,
                    ),
                forall|x: Entity|
                    w0.hit_points.spec_get(x) is None ==> #[trigger] self.realtime.spec_get(x)
                        == w0.realtime.spec_get(x),
            decreases es.len() - i,
        {
            let e = es[i];
            let ghost before = *self;
            assert(self.hit_points.spec_get(e) == w0.hit_points.spec_get(e));
            match self.location.get(e) {
                Some(loc) => {
                    let d = chebyshev_distance(loc.coord, centre);
                    if d <= radius as u64 {
                        let dmg = damage_at_distance(d, radius);
                        self.damage_character(e, dmg);
                    }
                },
                None => {},
            }
            proof {
                assert forall|k: int| i + 1 <= k < es@.len() implies {
                    &&& (#[trigger] self.hit_points.spec_get(es@[k])) == w0.hit_points.spec_get(es@[k])
                    &&& self.location.spec_get(es@[k]) == w0.location.spec_get(es@[k])
                    &&& self.allocator.alive(es@[k]) == w0.allocator.alive(es@[k])
                } by {
                    assert(es@[i as int].index < es@[k].index);
                    assert(es@[k] != e);
                }
                assert forall|x: Entity|
                    (forall|k: int| i + 1 <= k < es@.len() ==> es@[k] != x) implies #[trigger] blast_outcome(
                    w0,
                    *self,
                    x,
                    centre,
                    radius,
                ) by {
                    if x != e {
                        assert(forall|k: int| i <= k < es@.len() ==> es@[k] != x);
                        assert(blast_outcome(w0, before, x, centre, radius));
                    }
                }
                assert forall|x: Entity|
                    w0.hit_points.spec_get(x) is None implies #[trigger] self.realtime.spec_get(x)
                    == w0.realtime.spec_get(x) by {
                    assert(x != e);
                    assert(before.realtime.spec_get(x) == w0.realtime.spec_get(x));
                }
            }
            i += 1;
        }
        proof {
            assert forall|x: Entity| #[trigger] blast_outcome(w0, *self, x, centre, radius) by {
                assert(forall|k: int| i <= k < es@.len() ==> es@[k] != x);
            }
        }
    }
}

/// Whether an effect's time is up once `dt` more milliseconds have passed.
pub open spec fn spec_due(eff: Effect, dt: u64) -> bool {
    eff.elapsed >= eff.duration || dt >= eff.duration - eff.elapsed
}

/// The effect a detonation leaves behind.
pub open spec fn spec_explosion_effect() -> Effect {
    Effect { kind: EffectKind::Explosion { radius: EXPLOSION_RADIUS }, elapsed: 0, duration: EXPLOSION_MS }
}

/// The effect a fully expanded explosion turns into.
pub open spec fn spec_fade_effect() -> Effect {
    Effect { kind: EffectKind::Fade, elapsed: 0, duration: FADE_MS }
}

/// The effect of a projectile leaving for `target`.
pub open spec fn spec_flight_effect(target: Coord) -> Effect {
    Effect { kind: EffectKind::Movement { target }, elapsed: 0, duration: MOVE_PERIOD_MS }
}

/// What advancing the effect of `e` by `dt` milliseconds does, from world
/// `w0` and events `ev0` to world `w1` and events `ev1`.
pub open spec fn advanced(
    w0: World,
    w1: World,
    ev0: Seq<ExternalEvent>,
    ev1: Seq<ExternalEvent>,
    e: Entity,
    dt: u64,
) -> bool {
    &&& w1.wf()
    &&& issued_kept(w0, w1)
    &&& w1.size == w0.size
    &&& (ev1 == ev0 || exists|c: Coord| ev1 == ev0.push(ExternalEvent::Explosion(c)))
    &&& ({
        let eff = w0.realtime.spec_get(e).unwrap();
        !spec_due(eff, dt) ==> {
            &&& w1.realtime.spec_get(e) == Some(
                Effect { elapsed: (eff.elapsed + dt) as u64, ..eff },
            )
            &&& ev1 == ev0
            &&& w1.location == w0.location
            &&& w1.hit_points == w0.hit_points
            &&& w1.allocator == w0.allocator
        }
    })
    &&& ({
        let eff = w0.realtime.spec_get(e).unwrap();
        spec_due(eff, dt) && w0.spec_coord(e) is Some ==> match eff.kind {
            EffectKind::Movement { target } => {
                let c = w0.spec_coord(e).unwrap();
                let next = spec_step_toward(c, target);
                let layer = w0.location.spec_get(e).unwrap().layer;
                if c == target || !w0.spec_can_enter(next, layer) {
                    &&& w1.realtime.spec_get(e) == Some(spec_explosion_effect())
                    &&& ev1 == ev0.push(ExternalEvent::Explosion(c))
                    &&& w1.location == w0.location
                    &&& w1.hit_points == w0.hit_points
                } else {
                    &&& w1.spec_coord(e) == Some(next)
                    &&& w1.hit_points == w0.hit_points
                    &&& if next == target || w0.spec_occupant(next, Layer::Character)
                        is Some {
                        &&& w1.realtime.spec_get(e) == Some(spec_explosion_effect())
                        &&& ev1 == ev0.push(ExternalEvent::Explosion(next))
                    } else {
                        &&& w1.realtime.spec_get(e) == Some(spec_flight_effect(target))
                        &&& ev1 == ev0
                    }
                }
            },
            EffectKind::Explosion { radius } => {
                &&& forall|x: Entity| #[trigger]
                    blast_outcome(
                        w0,
                        w1,
                        x,
                        w0.spec_coord(e).unwrap(),
                        radius,
                    )
                &&& w1.realtime.spec_get(e) == Some(spec_fade_effect())
                &&& ev1 == ev0
            },
            EffectKind::Fade => {
                &&& !w1.allocator.alive(e)
                &&& w1.location.spec_get(e) is None
                &&& w1.realtime.spec_get(e) is None
                &&& ev1 == ev0
            },
        }
    })
}

/// One step of a tick: an entity whose effect is still there when its turn
/// comes is `advanced`; one whose effect is gone is passed over.
pub open spec fn effect_step(
    w0: World,
    w1: World,
    ev0: Seq<ExternalEvent>,
    ev1: Seq<ExternalEvent>,
    e: Entity,
    dt: u64,
) -> bool {
    if w0.realtime.spec_get(e) is Some {
        advanced(w0, w1, ev0, ev1, e, dt)
    } else {
        w1 == w0 && ev1 == ev0
    }
}

/// A tick from `w0` to `w1` is a chain of steps `ws`, one per entity that had
/// an effect when the tick began, taken in increasing order of index.
pub open spec fn tick_trace(
    w0: World,
    w1: World,
    ev0: Seq<ExternalEvent>,
    ev1: Seq<ExternalEvent>,
    dt: u64,
    es: Seq<Entity>,
    ws: Seq<World>,
    evs: Seq<Seq<ExternalEvent>>,
) -> bool {
    &&& ws.len() == es.len() + 1
    &&& evs.len() == es.len() + 1
    &&& ws[0] == w0
    &&& evs[0] == ev0
    &&& ws[es.len() as int] == w1
    &&& evs[es.len() as int] == ev1
    &&& forall|e: Entity| w0.realtime.spec_get(e) is Some <==> #[trigger] es.contains(e)
    &&& forall|j: int, k: int| 0 <= j < k < es.len() ==> es[j].index < es[k].index
    &&& forall|k: int|
        0 <= k < es.len() ==> #[trigger] effect_step(ws[k], ws[k + 1], evs[k], evs[k + 1], es[k], dt)
}

impl World {
    /// Launches a rocket from a located character toward `target`. The rocket
    /// is a new entity on the particle layer at the shooter's coordinate that
    /// blocks gameplay until it has run its course. Nothing is launched at the
    /// shooter's own coordinate, nor when the particle slot there is taken.
    pub fn character_fire_rocket(&mut self, shooter: Entity, target: Coord) -> (r: Option<Entity>)
        requires
            old(self).wf(),
        ensures
            final(self).wf(),
            issued_kept(*old(self), *final(self)),
            final(self).size == old(self).size,
            r is Some ==> old(self).spec_coord(shooter) is Some && old(self).spec_coord(shooter)
                != Some(target),
            old(self).spec_coord(shooter) matches Some(c) && c != target && old(self).spec_occupant(
                c,
                Layer::Particle,
            ) is None && !old(self).allocator.is_full() ==> r is Some,
            r matches Some(e) ==> {
                &&& !old(self).allocator.alive(e)
                &&& final(self).location.spec_get(e) == Some(
                    Location { coord: old(self).spec_coord(shooter).unwrap(), layer: Layer::Particle },
                )
                &&& final(self).realtime.spec_get(e) == Some(spec_flight_effect(target))
                &&& final(self).blocks_gameplay.spec_get(e) is Some
            },
            forall|x: Entity|
                r != Some(x) ==> #[trigger] final(self).location.spec_get(x) == old(
                    self,
                ).location.spec_get(x),
            forall|x: Entity|
                r != Some(x) ==> #[trigger] final(self).allocator.alive(x) == old(self).allocator.alive(x),
            final(self).hit_points == old(self).hit_points,
    {
        let c = match self.entity_coord(shooter) {
            Some(c) => c,
            None => {
                return None;
            },
        };
        if c == target {
            return None;
        }
        let r = self.spawn_at(Location { coord: c, layer: Layer::Particle }, Tile::Rocket);
        match r {
            Some(e) => {
                self.realtime.insert(
                    e,
                    Effect { kind: EffectKind::Movement { target }, elapsed: 0, duration: MOVE_PERIOD_MS },
                );
                self.blocks_gameplay.insert(e, ());
            },
            None => {},
        }
        r
    }

    /// Turns an effect entity into an explosion at `c` and reports it.
    fn detonate(&mut self, e: Entity, c: Coord, events: &mut Vec<ExternalEvent>)
        requires
            old(self).wf(),
        ensures
            final(self).wf(),
            final(self).size == old(self).size,
            final(self).location == old(self).location,
            final(self).allocator == old(self).allocator,
            final(self).hit_points == old(self).hit_points,
            final(self).cells == old(self).cells,
            final(self).realtime.spec_get(e) == Some(spec_explosion_effect()),
            final(events)@ == old(events)@.push(ExternalEvent::Explosion(c)),
    {
        self.realtime.insert(
            e,
            Effect { kind: EffectKind::Explosion { radius: EXPLOSION_RADIUS }, elapsed: 0, duration: EXPLOSION_MS },
        );
        self.tile.insert(e, Tile::Explosion);
        events.push(ExternalEvent::Explosion(c));
    }

    /// Advances the effect of `e` by `dt` milliseconds, clamped at its duration.
    /// When its time is up it resolves: a projectile at its target, or facing a
    /// cell it cannot enter, detonates where it stands; otherwise it moves one
    /// cell and detonates there if that is its target or a character stands
    /// there. A fully expanded explosion deals its blast damage once and starts
    /// to fade. A completed fade destroys the entity.
    pub fn advance_effect(&mut self, e: Entity, dt: u64, events: &mut Vec<ExternalEvent>)
        requires
            old(self).wf(),
            old(self).realtime.spec_get(e) is Some,
        ensures
            advanced(*old(self), *final(self), old(events)@, final(events)@, e, dt),
    {
        let eff = self.realtime.get(e).unwrap();
        if !(eff.elapsed >= eff.duration || dt >= eff.duration - eff.elapsed) {
            self.realtime.insert(e, Effect { elapsed: eff.elapsed + dt, ..eff });
            return ;
        }
        let (c, layer) = match self.location.get(e) {
            Some(loc) => (loc.coord, loc.layer),
            None => {
                self.despawn(e);
                return ;
            },
        };
        match eff.kind {
            EffectKind::Movement { target } => {
                let next = step_toward(c, target);
                if c == target || !self.size.is_valid(next) {
                    self.detonate(e, c, events);
                } else if self.occupant_at(next, layer).is_some() || self.is_solid_at(next) {
                    self.detonate(e, c, events);
                } else {
                    let hit = self.occupant_at(next, Layer::Character).is_some();
                    let moved = self.move_to(e, next);
                    if next == target || hit {
                        self.detonate(e, next, events);
                    } else {
                        self.realtime.insert(
                            e,
                            Effect { kind: EffectKind::Movement { target }, elapsed: 0, duration: MOVE_PERIOD_MS },
                        );
                    }
                }
            },
            EffectKind::Explosion { radius } => {
                self.apply_explosion(c, radius);
                let ghost mid = *self;
                self.realtime.insert(e, Effect { kind: EffectKind::Fade, elapsed: 0, duration: FADE_MS });
                assert forall|x: Entity| #[trigger]
                    blast_outcome(*old(self), *self, x, c, radius) by {
                    assert(blast_outcome(*old(self), mid, x, c, radius));
                }
            },
            EffectKind::Fade => {
                self.despawn(e);
            },
        }
    }

    /// Advances every timed effect by `dt` milliseconds, in increasing order of
    /// entity index. Events are only appended.
    pub fn animation_tick(&mut self, dt: u64, events: &mut Vec<ExternalEvent>)
        requires
            old(self).wf(),
        ensures
            final(self).wf(),
            issued_kept(*old(self), *final(self)),
            final(self).size == old(self).size,
            old(events)@.len() <= final(events)@.len(),
            final(events)@.subrange(0, old(events)@.len() as int) == old(events)@,
            (forall|e: Entity| #[trigger] old(self).realtime.spec_get(e) is None) ==> *final(self)
                == *old(self) && final(events)@ == old(events)@,
            exists|es: Seq<Entity>, ws: Seq<World>, evs: Seq<Seq<ExternalEvent>>|
                tick_trace(*old(self), *final(self), old(events)@, final(events)@, dt, es, ws, evs),
    {
        let es = self.realtime.entities();
        let ghost mut ws: Seq<World> = seq![*self];
        let ghost mut evs: Seq<Seq<ExternalEvent>> = seq![events@];
        let mut i: usize = 0;
        while i < es.len()
            invariant
                self.wf(),
                self.size == old(self).size,
                issued_kept(*old(self), *self),
                i <= es@.len(),
                old(events)@.len() <= events@.len(),
                events@.subrange(0, old(events)@.len() as int) == old(events)@,
                forall|k: int| 0 <= k < es@.len() ==> (#[trigger] old(self).realtime.spec_get(es@[k])) is Some,
                forall|e: Entity| old(self).realtime.spec_get(e) is Some ==> es@.contains(e),
                forall|j: int, k: int| 0 <= j < k < es@.len() ==> es@[j].index < es@[k].index,
                (forall|e: Entity| #[trigger] old(self).realtime.spec_get(e) is None) ==> *self == *old(self)
                    && events@ == old(events)@,
                ws.len() == i + 1,
                evs.len() == i + 1,
                ws[0] == *old(self),
                evs[0] == old(events)@,
                ws[i as int] == *self,
                evs[i as int] == events@,
                forall|k: int|
                    0 <= k < i ==> #[trigger] effect_step(ws[k], ws[k + 1], evs[k], evs[k + 1], es@[k], dt),
            decreases es.len() - i,
        {
            let e = es[i];
            if self.realtime.contains(e) {
                let ghost before = events@;
                self.advance_effect(e, dt, events);
                assert(events@.subrange(0, old(events)@.len() as int) =~= before.subrange(
                    0,
                    old(events)@.len() as int,
                ));
            }
            proof {
                let ws0 = ws;
                let evs0 = evs;
                ws = ws.push(*self);
                evs = evs.push(events@);
                assert forall|k: int|
                    0 <= k < i + 1 implies #[trigger] effect_step(ws[k], ws[k + 1], evs[k], evs[k + 1], es@[k], dt) by {
                    if k < i {
                        assert(ws[k] == ws0[k] && ws[k + 1] == ws0[k + 1]);
                        assert(evs[k] == evs0[k] && evs[k + 1] == evs0[k + 1]);
                    }
                }
            }
            i += 1;
        }
        proof {
            let es_s = es@;
            assert(tick_trace(*old(self), *self, old(events)@, events@, dt, es_s, ws, evs));
        }
    }
}
} // verus!
