use cave_fov::fov::Area;
use cave_fov::map::tile::{Tile, TileType};
use cave_fov::map::Grid;
use cave_fov::vector::Vector;

#[test]
fn wall_and_floor_start_out_unseen() {
    let w = Tile::wall();
    assert!(w.blocked && !w.visible && !w.seen);
    assert_eq!(w.tile_type, TileType::Wall);
    let f = Tile::floor();
    assert!(!f.blocked && !f.visible && !f.seen);
    assert_eq!(f.tile_type, TileType::Floor);
    assert_ne!(w, f);
}

#[test]
fn grid_without_text_is_solid_rock() {
    let g = Grid::new(Vector::new(4, 3), "");
    assert_eq!(g.width(), 4);
    assert_eq!(g.height(), 3);
    assert_eq!(g.tiles().len(), 12);
    assert!(g.tiles().iter().all(|t| *t == Tile::wall()));
}

#[test]
fn grid_follows_its_text() {
    let g = Grid::new(Vector::new(3, 2), "#. x#");
    let kinds: Vec<bool> = g.tiles().iter().map(|t| t.blocked).collect();
    assert_eq!(kinds, vec![true, false, false, false, true, true]);
    assert_eq!(g.get_tile(Vector::new(1, 0)), Some(Tile::floor()));
    assert_eq!(g.get_tile(Vector::new(0, 0)), Some(Tile::wall()));
    assert_eq!(g.get_tile(Vector::new(2, 1)), Some(Tile::wall()));
}

#[test]
fn grid_text_longer_than_the_grid_is_cut() {
    let g = Grid::new(Vector::new(2, 1), "..####");
    assert_eq!(g.tiles().len(), 2);
    assert!(g.tiles().iter().all(|t| *t == Tile::floor()));
}

#[test]
fn grid_text_counts_characters_not_bytes() {
    let g = Grid::new(Vector::new(3, 1), "\u{e9}#\u{4e16}");
    let kinds: Vec<bool> = g.tiles().iter().map(|t| t.blocked).collect();
    assert_eq!(kinds, vec![false, true, false]);
}

#[test]
fn bounds_are_half_open() {
    let g = Grid::new(Vector::new(4, 3), "");
    assert!(g.in_bounds(Vector::new(0, 0)));
    assert!(g.in_bounds(Vector::new(3, 2)));
    assert!(!g.in_bounds(Vector::new(4, 2)));
    assert!(!g.in_bounds(Vector::new(3, 3)));
    assert!(!g.in_bounds(Vector::new(-1, 0)));
    assert!(!g.in_bounds(Vector::new(0, -1)));
    assert!(!g.in_bounds(Vector::new(i32::MAX, i32::MIN)));
}

#[test]
fn index_runs_row_after_row() {
    let g = Grid::new(Vector::new(4, 3), "");
    assert_eq!(g.pos_to_index(Vector::new(0, 0)), 0);
    assert_eq!(g.pos_to_index(Vector::new(3, 0)), 3);
    assert_eq!(g.pos_to_index(Vector::new(0, 1)), 4);
    assert_eq!(g.pos_to_index(Vector::new(2, 2)), 10);
    assert_eq!(g.pos_to_index(Vector::new(3, 2)), 11);
}

#[test]
fn outside_the_grid_there_is_no_tile_and_no_way() {
    let g = Grid::new(Vector::new(2, 2), "....");
    assert_eq!(g.get_tile(Vector::new(2, 0)), None);
    assert_eq!(g.get_tile(Vector::new(0, -1)), None);
    assert!(g.is_blocked(Vector::new(2, 0)));
    assert!(g.is_blocked(Vector::new(-1, -1)));
    assert!(!g.is_blocked(Vector::new(1, 1)));
    assert!(!g.transparent(Vector::new(5, 5)));
    assert!(g.transparent(Vector::new(0, 1)));
}

#[test]
fn walls_block_and_floors_do_not() {
    let g = Grid::new(Vector::new(2, 1), "#.");
    assert!(g.is_blocked(Vector::new(0, 0)));
    assert!(!g.is_blocked(Vector::new(1, 0)));
    assert!(!g.transparent(Vector::new(0, 0)));
    assert!(g.transparent(Vector::new(1, 0)));
}

#[test]
fn marking_a_tile_touches_that_tile_only() {
    let mut g = Grid::new(Vector::new(3, 2), "#.#.#.");
    g.set_visibility(Vector::new(1, 1), true);
    for (i, t) in g.tiles().iter().enumerate() {
        assert_eq!(t.visible, i == 4);
        assert_eq!(t.seen, i == 4);
        assert_eq!(t.blocked, i % 2 == 0);
    }
    g.set_visibility(Vector::new(1, 1), false);
    let t = g.get_tile(Vector::new(1, 1)).unwrap();
    assert!(!t.visible);
    assert!(t.seen);
    assert!(t.blocked);
    assert_eq!(t.tile_type, TileType::Wall);
}

#[test]
fn marking_outside_the_grid_does_nothing() {
    let mut g = Grid::new(Vector::new(2, 2), "#.#.");
    let before = g.tiles().clone();
    g.set_visibility(Vector::new(2, 0), true);
    g.set_visibility(Vector::new(-1, 1), true);
    g.remember_tile(Vector::new(0, 2));
    assert_eq!(*g.tiles(), before);
}

#[test]
fn hiding_everything_keeps_what_was_seen() {
    let mut g = Grid::new(Vector::new(2, 2), "#.#.");
    g.set_visibility(Vector::new(0, 0), true);
    g.set_visibility(Vector::new(1, 1), true);
    g.set_all_visiblity(false);
    let seen: Vec<bool> = g.tiles().iter().map(|t| t.seen).collect();
    assert_eq!(seen, vec![true, false, false, true]);
    assert!(g.tiles().iter().all(|t| !t.visible));
    let blocked: Vec<bool> = g.tiles().iter().map(|t| t.blocked).collect();
    assert_eq!(blocked, vec![true, false, true, false]);
}

#[test]
fn showing_everything_counts_as_seeing_it() {
    let mut g = Grid::new(Vector::new(2, 2), "#.#.");
    g.set_all_visiblity(true);
    assert!(g.tiles().iter().all(|t| t.visible && t.seen));
    let blocked: Vec<bool> = g.tiles().iter().map(|t| t.blocked).collect();
    assert_eq!(blocked, vec![true, false, true, false]);
}

#[test]
fn remembering_a_tile_leaves_it_hidden() {
    let mut g = Grid::new(Vector::new(2, 1), "..");
    g.remember_tile(Vector::new(1, 0));
    assert_eq!(g.get_tile(Vector::new(0, 0)), Some(Tile::floor()));
    let t = g.get_tile(Vector::new(1, 0)).unwrap();
    assert!(t.seen && !t.visible && !t.blocked);
}

#[test]
fn a_copy_of_a_grid_is_its_own() {
    let mut g = Grid::new(Vector::new(2, 1), "..");
    let copy = g.clone();
    g.set_visibility(Vector::new(0, 0), true);
    assert_eq!(copy.width(), 2);
    assert_eq!(copy.height(), 1);
    assert!(copy.tiles().iter().all(|t| *t == Tile::floor()));
    assert!(g.get_tile(Vector::new(0, 0)).unwrap().visible);
}

#[test]
fn get_tiles_hands_out_a_copy() {
    let mut g = Grid::new(Vector::new(2, 1), "#.");
    let copy = g.get_tiles();
    assert_eq!(copy, vec![Tile::wall(), Tile::floor()]);
    g.set_all_visiblity(true);
    assert_eq!(copy, vec![Tile::wall(), Tile::floor()]);
    assert_eq!(g.get_tiles(), *g.tiles());
}
