use roguelike::behaviour::{Agent, BehaviourContext};
use roguelike::geom::{CardinalDirection, Coord, Size};
use roguelike::text::{Dimensions, FontBytes, StringView};
use roguelike::world::{Disposition, World};
use roguelike::{CellVisibility, Config, ExternalEvent, Game, GameControlFlow, Input};

fn config() -> Config {
    Config { omniscient: None }
}

fn explosions(g: &Game) -> Vec<Coord> {
    g.events()
        .into_iter()
        .map(|e| match e {
            ExternalEvent::Explosion(c) => c,
        })
        .collect()
}

#[test]
fn new_game_needs_a_player() {
    assert!(Game::new(&config(), 1, b"...\n...\n").is_none());
    assert!(Game::new(&config(), 1, b"").is_none());
    let g = Game::new(&config(), 1, b"@..\n...\n").unwrap();
    assert_eq!(g.world_size(), Size::new(3, 2));
    assert_eq!(g.player_info().coord, Coord::new(0, 0));
    assert_eq!(g.player_info().hit_points.current, 20);
    assert_eq!(g.frame_count(), 0);
}

#[test]
fn walls_are_reported() {
    let g = Game::new(&config(), 1, b"@#\n..\n").unwrap();
    assert!(g.contains_wall(Coord::new(1, 0)));
    assert!(!g.contains_wall(Coord::new(0, 1)));
    assert!(!g.contains_wall(Coord::new(7, 7)));
}

#[test]
fn player_walks_and_sees() {
    let mut g = Game::new(&config(), 1, b"@..\n...\n").unwrap();
    assert_eq!(g.visibility_grid().cell_visibility(Coord::new(0, 0)), CellVisibility::Visible);
    assert!(g.handle_input(Input::Walk(CardinalDirection::East), &config()).is_none());
    assert_eq!(g.player_info().coord, Coord::new(1, 0));
    assert_eq!(g.visibility_grid().cell_visibility(Coord::new(1, 0)), CellVisibility::Visible);
    assert!(g.handle_input(Input::Walk(CardinalDirection::North), &config()).is_none());
    assert_eq!(g.player_info().coord, Coord::new(1, 0));
}

#[test]
fn fire_at_adjacent_cell_explodes_there_once() {
    let mut g = Game::new(&config(), 1, b"@...\n....\nh...\n").unwrap();
    assert!(!g.to_render_entities().is_empty());
    assert!(g.handle_input(Input::Fire(Coord::new(1, 0)), &config()).is_none());
    assert!(g.is_gameplay_blocked());
    let mut seen = Vec::new();
    for _ in 0..40 {
        assert!(g.handle_tick(20, &config()).is_none());
        seen.extend(explosions(&g));
    }
    assert_eq!(seen, vec![Coord::new(1, 0)]);
    // distance 1 from the blast: 6 damage
    assert_eq!(g.player_info().hit_points.current, 14);
    assert!(!g.is_gameplay_blocked());
}

#[test]
fn travel_stops_before_a_wall() {
    let mut g = Game::new(&config(), 1, b"@#..\n....\n").unwrap();
    assert!(g.handle_input(Input::Fire(Coord::new(2, 0)), &config()).is_none());
    assert!(g.handle_tick(20, &config()).is_none());
    assert_eq!(explosions(&g), vec![Coord::new(0, 0)]);
    assert!(g.handle_tick(200, &config()).is_none());
    assert!(explosions(&g).is_empty());
    // the epicentre deals the most damage: 9
    assert_eq!(g.player_info().hit_points.current, 11);
}

#[test]
fn input_is_ignored_while_blocked() {
    let mut g = Game::new(&config(), 1, b"@...\n....\n").unwrap();
    assert!(g.handle_input(Input::Fire(Coord::new(3, 0)), &config()).is_none());
    assert!(g.is_gameplay_blocked());
    let before = g.player_info();
    assert!(g.handle_input(Input::Walk(CardinalDirection::South), &config()).is_none());
    assert_eq!(g.player_info(), before);
    assert_eq!(g.player_info().coord, Coord::new(0, 0));
    let mut ticks = 0;
    while g.is_gameplay_blocked() && ticks < 100 {
        assert!(g.handle_tick(50, &config()).is_none());
        ticks += 1;
    }
    assert!(!g.is_gameplay_blocked());
    assert!(g.handle_input(Input::Walk(CardinalDirection::South), &config()).is_none());
    assert_eq!(g.player_info().coord, Coord::new(0, 1));
}

#[test]
fn game_over_when_player_dies_and_stays_over() {
    let mut g = Game::new(&config(), 1, b"@..\n...\n").unwrap();
    let mut over = false;
    for _ in 0..10 {
        if over {
            break;
        }
        let r = g.handle_input(Input::Fire(Coord::new(1, 0)), &config());
        assert!(r.is_none());
        for _ in 0..20 {
            if let Some(GameControlFlow::GameOver) = g.handle_tick(50, &config()) {
                over = true;
            }
        }
    }
    assert!(over);
    assert_eq!(g.player_info().hit_points.current, 0);
    assert!(matches!(g.handle_input(Input::Wait, &config()), Some(GameControlFlow::GameOver)));
    assert!(matches!(g.handle_tick(10, &config()), Some(GameControlFlow::GameOver)));
    assert_eq!(g.player_info().hit_points.current, 0);
}

fn run(seed: u64) -> Game {
    let terrain = b"@....#....\n..f.......\n....h..*..\n.#....f...\n";
    let mut g = Game::new(&config(), seed, terrain).unwrap();
    let inputs = [
        Input::Wait,
        Input::Walk(CardinalDirection::East),
        Input::Walk(CardinalDirection::South),
        Input::Fire(Coord::new(4, 2)),
        Input::Wait,
        Input::Walk(CardinalDirection::West),
    ];
    for i in inputs.iter() {
        let _ = g.handle_input(*i, &config());
        for d in [0u64, 7, 33, 150, 400] {
            let _ = g.handle_tick(d, &config());
        }
    }
    g
}

#[test]
fn same_seed_same_game() {
    let a = run(42);
    let b = run(42);
    assert_eq!(a.to_render_entities(), b.to_render_entities());
    assert_eq!(a.player_info(), b.player_info());
    assert_eq!(a.rng_state(), b.rng_state());
    assert_eq!(a.frame_count(), b.frame_count());
    assert_eq!(a.events(), b.events());
}

#[test]
fn npc_turn_draws_for_each_live_npc() {
    let mut g = Game::new(&config(), 3, b"@...\n....\n...f\n").unwrap();
    let before = g.rng_state();
    g.handle_npc_turn();
    assert_ne!(g.rng_state(), before);
}

#[test]
fn distance_field_counts_steps_around_walls() {
    let mut w = World::new(Size::new(3, 3));
    for y in 0..3 {
        for x in 0..3 {
            w.spawn_floor(Coord::new(x, y)).unwrap();
        }
    }
    w.spawn_wall(Coord::new(1, 0)).unwrap();
    w.spawn_wall(Coord::new(1, 1)).unwrap();
    let p = w.spawn_player(Coord::new(0, 0)).unwrap();
    let mut ctx = BehaviourContext::new(w.size);
    ctx.update(p, &w);
    assert_eq!(ctx.distance(Coord::new(0, 0)), 0);
    assert_eq!(ctx.distance(Coord::new(0, 2)), 2);
    assert_eq!(ctx.distance(Coord::new(1, 2)), 3);
    assert_eq!(ctx.distance(Coord::new(2, 0)), 6);
    assert_eq!(ctx.distance(Coord::new(1, 0)), u32::MAX);
}

#[test]
fn hostile_npc_closes_in_or_fires() {
    let mut w = World::new(Size::new(8, 1));
    for x in 0..8 {
        w.spawn_floor(Coord::new(x, 0)).unwrap();
    }
    let p = w.spawn_player(Coord::new(0, 0)).unwrap();
    let near = w.spawn_former_human(Coord::new(2, 0)).unwrap();
    let far = w.spawn_former_human(Coord::new(5, 0)).unwrap();
    let mut ctx = BehaviourContext::new(w.size);
    ctx.update(p, &w);
    let mut a = Agent::new();
    assert_eq!(
        a.act(near, &w, Some(Coord::new(0, 0)), &mut ctx, 0),
        Some(Input::Walk(CardinalDirection::West))
    );
    assert_eq!(a.last_seen_player, Some(Coord::new(0, 0)));
    let mut b = Agent::new();
    assert_eq!(b.act(far, &w, Some(Coord::new(0, 0)), &mut ctx, 0), Some(Input::Fire(Coord::new(0, 0))));
}

#[test]
fn passive_npc_keeps_away_and_wanders_unseen() {
    let mut w = World::new(Size::new(12, 1));
    for x in 0..12 {
        w.spawn_floor(Coord::new(x, 0)).unwrap();
    }
    let p = w.spawn_player(Coord::new(0, 0)).unwrap();
    let h = w.spawn_human(Coord::new(2, 0)).unwrap();
    let far = w.spawn_human(Coord::new(11, 0)).unwrap();
    assert_eq!(w.npc.get(h), Some(Disposition::Passive));
    let mut ctx = BehaviourContext::new(w.size);
    ctx.update(p, &w);
    let mut a = Agent::new();
    assert_eq!(a.act(h, &w, Some(Coord::new(0, 0)), &mut ctx, 0), Some(Input::Walk(CardinalDirection::East)));
    let mut b = Agent::new();
    // out of sight: roll 3 selects west
    assert_eq!(b.act(far, &w, Some(Coord::new(0, 0)), &mut ctx, 3), Some(Input::Walk(CardinalDirection::West)));
    assert_eq!(b.last_seen_player, None);
    // roll 1 selects east, which leaves the map
    assert_eq!(b.act(far, &w, Some(Coord::new(0, 0)), &mut ctx, 1), None);
}

#[test]
fn string_view_writes_a_row() {
    let size = Size::new(4, 2);
    let mut cells = vec![' '; 8];
    let text: Vec<char> = "hello".chars().collect();
    StringView.view(&text, Coord::new(1, 1), size, &mut cells);
    assert_eq!(cells, vec![' ', ' ', ' ', ' ', ' ', 'h', 'e', 'l']);
}

#[test]
fn dimensions_and_font_bytes_hold_values() {
    let d = Dimensions { width: 16u32, height: 8u32 };
    assert_eq!(d.width * d.height, 128);
    let f = FontBytes { normal: vec![1, 2], bold: vec![3] };
    assert_eq!(f.normal.len() + f.bold.len(), 3);
}

#[test]
fn terrain_size_comes_from_first_line() {
    let g = Game::new(&config(), 5, b"\n\n@..\n\n.....\n").unwrap();
    assert_eq!(g.world_size(), Size::new(3, 2));
    let mut wide = vec![b'.'; 65536];
    wide[0] = b'@';
    assert!(Game::new(&config(), 5, &wide).is_none());
    let mut long = vec![b'.'; 1500];
    long[0] = b'@';
    assert_eq!(Game::new(&config(), 5, &long).unwrap().world_size(), Size::new(1500, 1));
}

#[test]
fn recomputing_game_visibility_is_stable() {
    let mut g = Game::new(&config(), 9, b"@..#..\n..#...\n......\n").unwrap();
    let cells = |g: &Game| {
        let mut v = Vec::new();
        for y in 0..3 {
            for x in 0..6 {
                v.push(g.visibility_grid().get(Coord::new(x, y)).unwrap());
            }
        }
        v
    };
    let once = cells(&g);
    g.update_visibility(&config());
    assert_eq!(cells(&g), once);
    assert_eq!(g.visibility_grid().cell_visibility(Coord::new(0, 0)), CellVisibility::Visible);
    assert_eq!(g.visibility_grid().cell_visibility(Coord::new(5, 0)), CellVisibility::Never);
}

#[test]
fn world_size_and_npc_queries() {
    let mut w = World::new(Size::new(2, 2));
    let h = w.spawn_human(Coord::new(1, 1)).unwrap();
    assert_eq!(w.size(), Size::new(2, 2));
    assert_eq!(w.entity_npc(h), Some(Disposition::Passive));
}

#[test]
fn terrain_builds_walls_npcs_and_player() {
    let g = Game::new(&config(), 2, b"#.@\n.fh\n").unwrap();
    assert!(g.contains_wall(Coord::new(0, 0)));
    assert_eq!(g.player_info().coord, Coord::new(2, 0));
    assert!(g.world().is_npc_at_coord(Coord::new(1, 1)));
    assert!(g.world().is_npc_at_coord(Coord::new(2, 1)));
}
