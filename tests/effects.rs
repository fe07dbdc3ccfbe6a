use roguelike::geom::{Coord, Size};
use roguelike::realtime::{damage_at_distance, step_toward, EffectKind, ExternalEvent, EXPLOSION_RADIUS};
use roguelike::world::{Disposition, HitPoints, Layer, Light, Rgb24, Tile, World};

#[test]
fn damage_values_by_distance() {
    assert_eq!(damage_at_distance(0, 2), 9);
    assert_eq!(damage_at_distance(1, 2), 6);
    assert_eq!(damage_at_distance(2, 2), 3);
    assert_eq!(damage_at_distance(3, 2), 0);
}

#[test]
fn damage_never_grows_with_distance() {
    for r in 0..5u32 {
        let mut prev = damage_at_distance(0, r);
        for d in 1..10u64 {
            let cur = damage_at_distance(d, r);
            assert!(cur <= prev);
            if d <= r as u64 {
                assert!(cur > 0);
            }
            prev = cur;
        }
    }
}

#[test]
fn step_toward_moves_one_king_step() {
    assert_eq!(step_toward(Coord::new(0, 0), Coord::new(3, -2)), Coord::new(1, -1));
    assert_eq!(step_toward(Coord::new(2, 2), Coord::new(2, 0)), Coord::new(2, 1));
    assert_eq!(step_toward(Coord::new(1, 1), Coord::new(1, 1)), Coord::new(1, 1));
}

#[test]
fn explosion_damages_within_radius_only() {
    let mut w = World::new(Size::new(7, 1));
    let a = w.spawn_human(Coord::new(0, 0)).unwrap();
    let b = w.spawn_former_human(Coord::new(2, 0)).unwrap();
    let c = w.spawn_human(Coord::new(5, 0)).unwrap();
    w.apply_explosion(Coord::new(1, 0), EXPLOSION_RADIUS);
    assert_eq!(w.character_info(a).unwrap().hit_points, HitPoints { current: 4, max: 10 });
    assert_eq!(w.character_info(b).unwrap().hit_points, HitPoints { current: 4, max: 10 });
    assert_eq!(w.character_info(c).unwrap().hit_points, HitPoints { current: 10, max: 10 });
    // a passive human that is hurt turns hostile
    assert_eq!(w.npc.get(a), Some(Disposition::Hostile));
    assert_eq!(w.npc.get(c), Some(Disposition::Passive));
}

#[test]
fn explosion_kills_at_zero() {
    let mut w = World::new(Size::new(3, 1));
    let a = w.spawn_human(Coord::new(1, 0)).unwrap();
    w.apply_explosion(Coord::new(1, 0), EXPLOSION_RADIUS);
    assert_eq!(w.character_info(a).unwrap().hit_points.current, 1);
    w.apply_explosion(Coord::new(1, 0), EXPLOSION_RADIUS);
    assert!(!w.entity_exists(a));
    assert!(w.character_info(a).is_none());
}

#[test]
fn rocket_flies_detonates_and_fades() {
    let mut w = World::new(Size::new(5, 1));
    let p = w.spawn_player(Coord::new(0, 0)).unwrap();
    let target = w.spawn_human(Coord::new(3, 0)).unwrap();
    let r = w.character_fire_rocket(p, Coord::new(3, 0)).unwrap();
    assert!(w.is_gameplay_blocked());
    let mut events = Vec::new();
    // a tick shorter than a move period only accumulates time
    w.animation_tick(5, &mut events);
    assert_eq!(w.entity_coord(r), Some(Coord::new(0, 0)));
    w.animation_tick(15, &mut events);
    assert_eq!(w.entity_coord(r), Some(Coord::new(1, 0)));
    w.animation_tick(1000, &mut events);
    assert_eq!(w.entity_coord(r), Some(Coord::new(2, 0)));
    assert!(events.is_empty());
    w.animation_tick(1000, &mut events);
    assert_eq!(w.entity_coord(r), Some(Coord::new(3, 0)));
    assert_eq!(events.len(), 1);
    assert!(matches!(events[0], ExternalEvent::Explosion(c) if c == Coord::new(3, 0)));
    assert!(matches!(w.realtime.get(r).unwrap().kind, EffectKind::Explosion { .. }));
    w.animation_tick(1000, &mut events);
    assert_eq!(events.len(), 1);
    assert_eq!(w.character_info(target).unwrap().hit_points.current, 1);
    assert_eq!(w.character_info(p).unwrap().hit_points.current, 20);
    assert!(w.is_gameplay_blocked());
    w.animation_tick(1000, &mut events);
    assert!(!w.entity_exists(r));
    assert!(!w.is_gameplay_blocked());
}

#[test]
fn rocket_not_fired_at_own_coordinate() {
    let mut w = World::new(Size::new(3, 1));
    let p = w.spawn_player(Coord::new(1, 0)).unwrap();
    assert_eq!(w.character_fire_rocket(p, Coord::new(1, 0)), None);
    assert!(!w.is_gameplay_blocked());
}

#[test]
fn render_records_carry_fade_light_and_blood() {
    let mut w = World::new(Size::new(4, 1));
    let f = w.spawn_floor(Coord::new(0, 0)).unwrap();
    assert!(w.spawn_light(Coord::new(0, 0), Light { colour: Rgb24 { r: 1, g: 2, b: 3 }, intensity: 9, range: 3 }));
    let p = w.spawn_player(Coord::new(0, 0)).unwrap();
    let r = w.character_fire_rocket(p, Coord::new(1, 0)).unwrap();
    let mut events = Vec::new();
    w.animation_tick(20, &mut events);
    w.animation_tick(150, &mut events);
    w.animation_tick(150, &mut events);
    let recs = w.to_render_entities();
    assert_eq!(recs.len(), 3);
    let floor = recs.iter().find(|x| x.layer == Layer::Floor).unwrap();
    assert_eq!(floor.colour_hint, Some(Rgb24 { r: 1, g: 2, b: 3 }));
    assert_eq!(floor.tile, Tile::Floor);
    let player = recs.iter().find(|x| x.layer == Layer::Character).unwrap();
    assert!(player.blood);
    assert_eq!(player.fade, None);
    let blast = recs.iter().find(|x| x.layer == Layer::Particle).unwrap();
    assert_eq!(blast.tile, Tile::Explosion);
    assert_eq!(blast.coord, Coord::new(1, 0));
    // 150 of 300 ms into the fade
    assert_eq!(blast.fade, Some(127));
    assert!(w.entity_exists(f));
    assert!(w.entity_exists(r));
}
