use roguelike::component::ComponentTable;
use roguelike::entity::{Entity, EntityAllocator};
use roguelike::geom::{chebyshev_distance, CardinalDirection, Coord, Size};
use roguelike::rng::XorShiftRng;
use roguelike::world::{Layer, Light, Location, Rgb24, Tile, World};

#[test]
fn allocator_spawns_distinct_live_handles() {
    let mut a = EntityAllocator::new();
    let e1 = a.spawn().unwrap();
    let e2 = a.spawn().unwrap();
    assert_ne!(e1, e2);
    assert!(a.is_alive(e1));
    assert!(a.is_alive(e2));
}

#[test]
fn allocator_reuses_slot_with_new_generation() {
    let mut a = EntityAllocator::new();
    let e1 = a.spawn().unwrap();
    a.despawn(e1);
    assert!(!a.is_alive(e1));
    let e2 = a.spawn().unwrap();
    assert_eq!(e2.index, e1.index);
    assert_ne!(e2.generation, e1.generation);
    assert!(a.is_alive(e2));
    assert!(!a.is_alive(e1));
}

#[test]
fn component_table_insert_get_remove() {
    let mut t: ComponentTable<u32> = ComponentTable::new();
    let e = Entity { index: 3, generation: 1 };
    let stale = Entity { index: 3, generation: 0 };
    assert!(t.is_empty());
    t.insert(e, 7);
    assert_eq!(t.get(e), Some(7));
    assert_eq!(t.get(stale), None);
    assert!(!t.is_empty());
    t.remove(stale);
    assert_eq!(t.get(e), Some(7));
    t.remove(e);
    assert_eq!(t.get(e), None);
    assert!(t.is_empty());
}

#[test]
fn component_table_entities_in_index_order() {
    let mut t: ComponentTable<u8> = ComponentTable::new();
    t.insert(Entity { index: 5, generation: 0 }, 1);
    t.insert(Entity { index: 1, generation: 2 }, 2);
    t.insert(Entity { index: 3, generation: 0 }, 3);
    let es = t.entities();
    assert_eq!(
        es,
        vec![
            Entity { index: 1, generation: 2 },
            Entity { index: 3, generation: 0 },
            Entity { index: 5, generation: 0 }
        ]
    );
}

#[test]
fn chebyshev_distance_values() {
    assert_eq!(chebyshev_distance(Coord::new(0, 0), Coord::new(0, 0)), 0);
    assert_eq!(chebyshev_distance(Coord::new(1, 2), Coord::new(4, 0)), 3);
    assert_eq!(chebyshev_distance(Coord::new(-2, 5), Coord::new(1, 1)), 4);
}

#[test]
fn size_index_and_coord_round_trip() {
    let s = Size::new(5, 3);
    assert_eq!(s.num_cells(), 15);
    assert_eq!(s.index(Coord::new(2, 1)), 7);
    assert_eq!(s.coord(7), Coord::new(2, 1));
    assert!(s.is_valid(Coord::new(4, 2)));
    assert!(!s.is_valid(Coord::new(5, 0)));
    assert!(!s.is_valid(Coord::new(0, -1)));
}

#[test]
fn direction_steps() {
    let c = Coord::new(3, 3);
    assert_eq!(CardinalDirection::North.step(c), Some(Coord::new(3, 2)));
    assert_eq!(CardinalDirection::East.step(c), Some(Coord::new(4, 3)));
    assert_eq!(CardinalDirection::South.step(c), Some(Coord::new(3, 4)));
    assert_eq!(CardinalDirection::West.step(c), Some(Coord::new(2, 3)));
    assert_eq!(CardinalDirection::West.step(Coord::new(i32::MIN, 0)), None);
}

#[test]
fn xorshift_stream_values() {
    let mut r = XorShiftRng::seed_from_u64(1);
    assert_eq!(r.next_u64(), 1082269761);
    assert_eq!(r.next_u64(), 1152992998833853505);
    assert_eq!(r.next_u64(), 11177516664432764457);
    let z = XorShiftRng::seed_from_u64(0);
    assert_ne!(z.state, 0);
}

#[test]
fn spawn_refuses_an_occupied_slot() {
    let mut w = World::new(Size::new(3, 3));
    let c = Coord::new(1, 1);
    let a = w.spawn_floor(c).unwrap();
    assert_eq!(w.spawn_floor(c), None);
    assert_eq!(w.occupant_at(c, Layer::Floor), Some(a));
    let wall = w.spawn_wall(c).unwrap();
    assert_eq!(w.occupant_at(c, Layer::Feature), Some(wall));
    assert_eq!(w.spawn_floor(Coord::new(3, 0)), None);
}

#[test]
fn move_onto_occupied_character_slot_is_blocked() {
    let mut w = World::new(Size::new(4, 1));
    let a = w.spawn_player(Coord::new(0, 0)).unwrap();
    let b = w.spawn_human(Coord::new(1, 0)).unwrap();
    assert!(!w.move_to(a, Coord::new(1, 0)));
    assert_eq!(w.entity_coord(a), Some(Coord::new(0, 0)));
    assert_eq!(w.entity_coord(b), Some(Coord::new(1, 0)));
    assert_eq!(w.occupant_at(Coord::new(1, 0), Layer::Character), Some(b));
    assert!(w.move_to(b, Coord::new(2, 0)));
    assert_eq!(w.occupant_at(Coord::new(1, 0), Layer::Character), None);
    assert_eq!(w.occupant_at(Coord::new(2, 0), Layer::Character), Some(b));
}

#[test]
fn move_onto_wall_is_blocked() {
    let mut w = World::new(Size::new(3, 1));
    let p = w.spawn_player(Coord::new(0, 0)).unwrap();
    w.spawn_wall(Coord::new(1, 0)).unwrap();
    assert!(w.is_solid_at(Coord::new(1, 0)));
    assert_eq!(w.opacity_at(Coord::new(1, 0)), 255);
    assert_eq!(w.opacity_at(Coord::new(0, 0)), 0);
    assert!(!w.move_to(p, Coord::new(1, 0)));
    assert_eq!(w.entity_coord(p), Some(Coord::new(0, 0)));
    assert!(!w.move_to(p, Coord::new(-1, 0)));
}

#[test]
fn despawn_frees_the_slot() {
    let mut w = World::new(Size::new(2, 2));
    let c = Coord::new(1, 1);
    let e = w.spawn_human(c).unwrap();
    w.despawn(e);
    assert!(!w.entity_exists(e));
    assert_eq!(w.occupant_at(c, Layer::Character), None);
    assert!(w.character_info(e).is_none());
    let f = w.spawn_player(c).unwrap();
    assert_ne!(e, f);
    assert!(!w.entity_exists(e));
    assert_eq!(w.spawn_at(Location { coord: c, layer: Layer::Character }, Tile::Human), None);
}

#[test]
fn npc_and_light_queries() {
    let mut w = World::new(Size::new(3, 1));
    w.spawn_floor(Coord::new(0, 0)).unwrap();
    w.spawn_floor(Coord::new(2, 0)).unwrap();
    let light = Light { colour: Rgb24 { r: 5, g: 6, b: 7 }, intensity: 40, range: 3 };
    assert!(w.spawn_light(Coord::new(2, 0), light));
    assert!(!w.spawn_light(Coord::new(1, 0), light));
    w.spawn_human(Coord::new(1, 0)).unwrap();
    w.spawn_player(Coord::new(0, 0)).unwrap();
    assert!(w.is_npc_at_coord(Coord::new(1, 0)));
    assert!(!w.is_npc_at_coord(Coord::new(0, 0)));
    assert!(!w.is_npc_at_coord(Coord::new(5, 0)));
    assert_eq!(w.all_lights_by_coord(), vec![(Coord::new(2, 0), light)]);
}
