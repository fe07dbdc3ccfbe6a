use roguelike::geom::{Coord, Size};
use roguelike::shadowcast::compute_field_of_view;
use roguelike::visibility::{CellVisibility, Omniscient, VisibilityGrid};
use roguelike::world::{Light, Rgb24, World};

fn floor_world(width: u32, height: u32) -> World {
    let mut w = World::new(Size::new(width, height));
    for y in 0..height as i32 {
        for x in 0..width as i32 {
            w.spawn_floor(Coord::new(x, y)).unwrap();
        }
    }
    w
}

fn snapshot(g: &VisibilityGrid) -> Vec<(CellVisibility, u8)> {
    let s = g.size();
    let mut out = Vec::new();
    for y in 0..s.height as i32 {
        for x in 0..s.width as i32 {
            let c = g.get(Coord::new(x, y)).unwrap();
            out.push((c.visibility, c.light));
        }
    }
    out
}

#[test]
fn open_room_is_fully_visible() {
    let w = floor_world(5, 5);
    let mut g = VisibilityGrid::new(w.size);
    g.update(Coord::new(2, 2), &w, None);
    for y in 0..5 {
        for x in 0..5 {
            assert_eq!(g.cell_visibility(Coord::new(x, y)), CellVisibility::Visible);
        }
    }
}

#[test]
fn viewpoint_is_visible_even_when_walled_in() {
    let mut w = floor_world(3, 3);
    for (x, y) in [(0, 0), (1, 0), (2, 0), (0, 1), (2, 1), (0, 2), (1, 2), (2, 2)] {
        w.spawn_wall(Coord::new(x, y)).unwrap();
    }
    let mut g = VisibilityGrid::new(w.size);
    g.update(Coord::new(1, 1), &w, None);
    assert_eq!(g.cell_visibility(Coord::new(1, 1)), CellVisibility::Visible);
    assert_eq!(g.cell_visibility(Coord::new(0, 1)), CellVisibility::Visible);
}

#[test]
fn wall_hides_the_cells_behind_it() {
    let mut w = floor_world(7, 1);
    w.spawn_wall(Coord::new(2, 0)).unwrap();
    let mut g = VisibilityGrid::new(w.size);
    g.update(Coord::new(0, 0), &w, None);
    assert_eq!(g.cell_visibility(Coord::new(1, 0)), CellVisibility::Visible);
    assert_eq!(g.cell_visibility(Coord::new(2, 0)), CellVisibility::Visible);
    assert_eq!(g.cell_visibility(Coord::new(3, 0)), CellVisibility::Never);
    assert_eq!(g.cell_visibility(Coord::new(6, 0)), CellVisibility::Never);
    assert_eq!(g.cell_visibility(Coord::new(9, 0)), CellVisibility::Never);
}

#[test]
fn recomputing_twice_changes_nothing() {
    let mut w = floor_world(6, 6);
    w.spawn_wall(Coord::new(3, 2)).unwrap();
    w.spawn_wall(Coord::new(2, 4)).unwrap();
    w.spawn_light(Coord::new(5, 5), Light { colour: Rgb24 { r: 1, g: 2, b: 3 }, intensity: 90, range: 4 });
    let mut g = VisibilityGrid::new(w.size);
    g.update(Coord::new(1, 1), &w, None);
    let once = snapshot(&g);
    g.update(Coord::new(1, 1), &w, None);
    assert_eq!(snapshot(&g), once);
}

#[test]
fn cells_out_of_sight_are_remembered() {
    let mut w = floor_world(5, 1);
    let mut g = VisibilityGrid::new(w.size);
    g.update(Coord::new(0, 0), &w, None);
    assert_eq!(g.cell_visibility(Coord::new(4, 0)), CellVisibility::Visible);
    w.spawn_wall(Coord::new(1, 0)).unwrap();
    g.update(Coord::new(0, 0), &w, None);
    assert_eq!(g.cell_visibility(Coord::new(1, 0)), CellVisibility::Visible);
    assert_eq!(g.cell_visibility(Coord::new(4, 0)), CellVisibility::Remembered);
}

#[test]
fn omniscience_shows_everything() {
    let mut w = floor_world(5, 1);
    w.spawn_wall(Coord::new(1, 0)).unwrap();
    let mut g = VisibilityGrid::new(w.size);
    g.update(Coord::new(0, 0), &w, Some(Omniscient));
    for x in 0..5 {
        assert_eq!(g.cell_visibility(Coord::new(x, 0)), CellVisibility::Visible);
    }
}

#[test]
fn light_reaches_cells_in_its_range() {
    let mut w = floor_world(7, 1);
    w.spawn_light(Coord::new(0, 0), Light { colour: Rgb24 { r: 9, g: 9, b: 9 }, intensity: 50, range: 2 });
    w.spawn_light(Coord::new(1, 0), Light { colour: Rgb24 { r: 9, g: 9, b: 9 }, intensity: 80, range: 1 });
    let mut g = VisibilityGrid::new(w.size);
    g.update(Coord::new(3, 0), &w, None);
    assert_eq!(g.get(Coord::new(0, 0)).unwrap().light, 80);
    assert_eq!(g.get(Coord::new(2, 0)).unwrap().light, 80);
    assert_eq!(g.get(Coord::new(3, 0)).unwrap().light, 0);
}

#[test]
fn field_of_view_of_open_grid() {
    let size = Size::new(4, 3);
    let op = vec![0u8; 12];
    let mut mask = vec![false; 3];
    compute_field_of_view(&op, size, Coord::new(0, 0), 1, &mut mask);
    assert_eq!(mask.len(), 12);
    assert!(mask[0] && mask[1] && mask[4] && mask[5]);
    assert!(!mask[2] && !mask[8]);
}
