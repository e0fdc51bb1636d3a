use cave_fov::fov::{refresh_octant, refresh_visiblity, transform_octant};
use cave_fov::map::Grid;
use cave_fov::vector::Vector;

fn grid(rows: &[&str]) -> Grid {
    let text: String = rows.concat();
    Grid::new(Vector::new(rows[0].len() as i32, rows.len() as i32), &text)
}

/// One character for each tile: `@` the observer, `#` and `.` what is
/// visible, `%` a hidden wall and `?` a hidden floor.
fn picture(g: &Grid, origin: Vector) -> Vec<String> {
    let mut rows = Vec::new();
    for y in 0..g.height() {
        let mut row = String::new();
        for x in 0..g.width() {
            let t = g.get_tile(Vector::new(x, y)).unwrap();
            let c = if !t.visible {
                if t.blocked { '%' } else { '?' }
            } else if origin == Vector::new(x, y) {
                '@'
            } else if t.blocked {
                '#'
            } else {
                '.'
            };
            row.push(c);
        }
        rows.push(row);
    }
    rows
}

fn look(rows: &[&str], origin: Vector, range_limit: i32) -> Vec<String> {
    let mut g = grid(rows);
    refresh_visiblity(&mut g, range_limit, origin);
    picture(&g, origin)
}

fn visible_cells(rows: &[&str], origin: Vector, range_limit: i32) -> Vec<bool> {
    let mut g = grid(rows);
    refresh_visiblity(&mut g, range_limit, origin);
    g.tiles().iter().map(|t| t.visible).collect()
}

const CAVE: [&str; 7] = [
    "##########",
    "#...#....#",
    "#.#.#.##.#",
    "#.#...#..#",
    "#.####.#.#",
    "#......#.#",
    "##########",
];

const HALL: [&str; 9] = [
    "#########",
    "#.......#",
    "#.......#",
    "#.......#",
    "#.......#",
    "#.......#",
    "#.......#",
    "#.......#",
    "#########",
];

#[test]
fn open_room_is_seen_whole() {
    let seen = look(&["#####", "#...#", "#...#", "#...#", "#####"], Vector::new(2, 2), -1);
    assert_eq!(seen, vec!["#####", "#...#", "#.@.#", "#...#", "#####"]);
}

#[test]
fn wall_segment_hides_what_is_behind_it() {
    let rows = [".......", ".......", ".......", "..###..", ".......", ".......", "......."];
    let mut g = grid(&rows);
    refresh_visiblity(&mut g, -1, Vector::new(1, 1));
    let visible = |x: i32, y: i32| g.get_tile(Vector::new(x, y)).unwrap().visible;
    assert!(!visible(3, 5));
    assert!(!visible(4, 5));
    assert!(visible(5, 3));
    assert!(visible(2, 3));
    assert!(visible(3, 3));
    assert!(visible(4, 3));
    // The sightline to (2, 5) grazes the left end of the segment.
    assert!(visible(2, 5));
    assert_eq!(
        picture(&g, Vector::new(1, 1)),
        vec![".......", ".@.....", ".......", "..###..", "...????", "...????", "...????"]
    );
}

#[test]
fn wall_segment_in_a_walled_room() {
    let rows = ["#######", "#.....#", "#.....#", "#.###.#", "#.....#", "#.....#", "#######"];
    let seen = look(&rows, Vector::new(1, 1), -1);
    assert_eq!(
        seen,
        vec!["#######", "#@....#", "#.....#", "#.###.#", "#..???%", "#..???%", "###%%%%"]
    );
}

#[test]
fn winding_cave_from_a_corner() {
    assert_eq!(
        look(&CAVE, Vector::new(1, 1), -1),
        vec![
            "#####%%%%%",
            "#@..#????%",
            "#.#.#?%%?%",
            "#.#???%??%",
            "#.#%%%?%?%",
            "#.?????%?%",
            "###%%%%%%%",
        ]
    );
}

#[test]
fn winding_cave_from_the_middle() {
    assert_eq!(
        look(&CAVE, Vector::new(5, 3), -1),
        vec![
            "%%%%###%%%",
            "%???#..??%",
            "%?#.#.#%?%",
            "%?#..@#??%",
            "%?####.#?%",
            "%?????.#?%",
            "%%%%%%##%%",
        ]
    );
}

#[test]
fn winding_cave_with_short_sight() {
    assert_eq!(
        look(&CAVE, Vector::new(8, 5), 4),
        vec![
            "%%%%%%%%%%",
            "%???%????%",
            "%?%?%?%#.#",
            "%?%???%..#",
            "%?%%%%?#.#",
            "%??????#@#",
            "%%%%%%%###",
        ]
    );
}

#[test]
fn origin_is_seen_whatever_it_is() {
    let rows = ["###", "###", "###"];
    assert_eq!(look(&rows, Vector::new(1, 1), -1), vec!["###", "#@#", "###"]);
    assert_eq!(look(&rows, Vector::new(1, 1), 0), vec!["%%%", "%@%", "%%%"]);
    assert_eq!(look(&rows, Vector::new(0, 2), 5), vec!["%%%", "##%", "@#%"]);
}

#[test]
fn origin_outside_the_grid_lights_no_tile_of_its_own() {
    let rows = ["...", "...", "..."];
    let mut g = grid(&rows);
    refresh_visiblity(&mut g, 0, Vector::new(5, 5));
    assert!(g.tiles().iter().all(|t| !t.visible));
    // From right beside the grid the whole of it is in sight; from one
    // step further off, what lies between stops the light.
    assert_eq!(look(&rows, Vector::new(-1, 1), -1), vec!["...", "...", "..."]);
    assert_eq!(look(&rows, Vector::new(-2, 1), -1), vec!["???", "???", "???"]);
}

#[test]
fn range_zero_and_one_show_the_origin_alone() {
    for range_limit in [0, 1] {
        let seen = look(&HALL, Vector::new(4, 4), range_limit);
        let mut expected = vec!["%%%%%%%%%".to_string()];
        for y in 1..8 {
            expected.push(if y == 4 { "%???@???%".to_string() } else { "%???????%".to_string() });
        }
        expected.push("%%%%%%%%%".to_string());
        assert_eq!(seen, expected);
    }
}

#[test]
fn range_limit_cuts_a_disc() {
    assert_eq!(
        look(&HALL, Vector::new(4, 4), 2),
        vec![
            "%%%%%%%%%",
            "%???????%",
            "%???????%",
            "%??...??%",
            "%??.@.??%",
            "%??...??%",
            "%???????%",
            "%???????%",
            "%%%%%%%%%",
        ]
    );
    assert_eq!(
        look(&HALL, Vector::new(4, 4), 3),
        vec![
            "%%%%%%%%%",
            "%???????%",
            "%?.....?%",
            "%?.....?%",
            "%?..@..?%",
            "%?.....?%",
            "%?.....?%",
            "%???????%",
            "%%%%%%%%%",
        ]
    );
    assert_eq!(
        look(&HALL, Vector::new(4, 4), 4),
        vec![
            "%%%%%%%%%",
            "%?.....?%",
            "%.......%",
            "%.......%",
            "%...@...%",
            "%.......%",
            "%.......%",
            "%?.....?%",
            "%%%%%%%%%",
        ]
    );
}

#[test]
fn wider_range_sees_no_less() {
    for origin in [Vector::new(1, 1), Vector::new(5, 3), Vector::new(8, 5), Vector::new(3, 3)] {
        let unlimited = visible_cells(&CAVE, origin, -1);
        let mut narrower = visible_cells(&CAVE, origin, 0);
        for range_limit in 1..14 {
            let wider = visible_cells(&CAVE, origin, range_limit);
            for i in 0..wider.len() {
                assert!(!narrower[i] || wider[i]);
                assert!(!wider[i] || unlimited[i]);
            }
            narrower = wider;
        }
        assert_eq!(narrower, unlimited);
    }
}

#[test]
fn looking_twice_sees_the_same() {
    let origin = Vector::new(5, 3);
    let mut g = grid(&CAVE);
    refresh_visiblity(&mut g, 6, origin);
    let first = g.tiles().clone();
    g.set_all_visiblity(false);
    refresh_visiblity(&mut g, 6, origin);
    assert_eq!(*g.tiles(), first);
    refresh_visiblity(&mut g, 6, origin);
    assert_eq!(*g.tiles(), first);
}

#[test]
fn looking_keeps_what_was_visible_and_seen() {
    let mut g = grid(&CAVE);
    refresh_visiblity(&mut g, -1, Vector::new(1, 1));
    let first = g.tiles().clone();
    refresh_visiblity(&mut g, -1, Vector::new(8, 5));
    for (now, before) in g.tiles().iter().zip(first.iter()) {
        assert!(!before.visible || now.visible);
        assert_eq!(now.seen, now.visible);
        assert_eq!(now.blocked, before.blocked);
        assert_eq!(now.tile_type, before.tile_type);
    }
    g.set_all_visiblity(false);
    refresh_visiblity(&mut g, -1, Vector::new(5, 3));
    let from_middle = visible_cells(&CAVE, Vector::new(5, 3), -1);
    let from_corner = visible_cells(&CAVE, Vector::new(1, 1), -1);
    let from_end = visible_cells(&CAVE, Vector::new(8, 5), -1);
    for (i, t) in g.tiles().iter().enumerate() {
        assert_eq!(t.visible, from_middle[i]);
        assert_eq!(t.seen, from_middle[i] || from_corner[i] || from_end[i]);
    }
}

#[test]
fn pillar_hides_the_line_behind_it() {
    let rows = [".....", ".....", "..#..", ".....", "....."];
    assert_eq!(
        look(&rows, Vector::new(0, 2), -1),
        vec![".....", ".....", "@.#??", ".....", "....."]
    );
    assert_eq!(
        look(&rows, Vector::new(2, 0), -1),
        vec!["..@..", ".....", "..#..", "..?..", "..?.."]
    );
    assert_eq!(
        look(&rows, Vector::new(4, 2), -1),
        vec![".....", ".....", "??#.@", ".....", "....."]
    );
    assert_eq!(
        look(&rows, Vector::new(2, 4), -1),
        vec!["..?..", "..?..", "..#..", ".....", "..@.."]
    );
}

#[test]
fn neighbours_are_seen_even_between_walls() {
    assert_eq!(look(&["@#.", "#..", "..."], Vector::new(0, 0), -1), vec!["@#?", "#..", "?.."]);
    assert_eq!(look(&["#.#", ".@.", "#.#"], Vector::new(1, 1), -1), vec!["#.#", ".@.", "#.#"]);
    assert_eq!(look(&[".#.", "#@#", ".#."], Vector::new(1, 1), -1), vec![".#.", "#@#", ".#."]);
}

#[test]
fn sight_through_a_gap_need_not_be_mutual() {
    let rows = ["...#", "..#."];
    assert_eq!(look(&rows, Vector::new(0, 0), -1), vec!["@..#", "..#."]);
    assert_eq!(look(&rows, Vector::new(3, 1), -1), vec!["?..#", "??#@"]);
}

#[test]
fn transform_octant_turns_and_mirrors() {
    let expected = [(2, -5), (5, -2), (5, 2), (2, 5), (-2, 5), (-5, 2), (-5, -2), (-2, -5)];
    for (octant, (x, y)) in expected.iter().enumerate() {
        assert_eq!(transform_octant(5, 2, octant), Vector::new(*x, *y));
    }
    assert_eq!(transform_octant(0, 0, 3), Vector::new(0, 0));
    assert_eq!(transform_octant(i32::MAX, -i32::MAX, 6), Vector::new(-i32::MAX, i32::MAX));
}

#[test]
fn octants_cover_the_surroundings() {
    let rows = [".....", ".....", ".....", ".....", "....."];
    let origin = Vector::new(2, 2);
    let mut all = grid(&rows);
    for octant in 0..8 {
        let mut g = grid(&rows);
        refresh_octant(&mut g, -1, origin, octant);
        assert!(!g.get_tile(origin).unwrap().visible);
        let count = g.tiles().iter().filter(|t| t.visible).count();
        assert_eq!(count, 5);
        for y in 0..5 {
            for x in 0..5 {
                let p = Vector::new(x, y);
                if g.get_tile(p).unwrap().visible {
                    let mut found = false;
                    for row in 1..3 {
                        for col in 0..row + 1 {
                            let d = transform_octant(row, col, octant);
                            found = found || Vector::new(2 + d.x, 2 + d.y) == p;
                        }
                    }
                    assert!(found);
                }
            }
        }
        refresh_octant(&mut all, -1, origin, octant);
    }
    assert_eq!(picture(&all, Vector::new(9, 9)), vec![".....", ".....", "..?..", ".....", "....."]);
}

#[test]
fn scan_stops_at_the_end_of_the_numbers() {
    let rows = ["...", "...", "..."];
    let mut g = grid(&rows);
    refresh_visiblity(&mut g, -1, Vector::new(i32::MAX, i32::MAX));
    assert!(g.tiles().iter().all(|t| !t.visible));
    let mut g = grid(&rows);
    refresh_visiblity(&mut g, i32::MAX, Vector::new(i32::MIN, 1));
    assert!(g.tiles().iter().all(|t| !t.visible));
}

#[test]
fn sight_along_rows_and_columns_is_mutual() {
    let width = CAVE[0].len() as i32;
    let height = CAVE.len() as i32;
    let mut sights = Vec::new();
    for y in 0..height {
        for x in 0..width {
            sights.push(visible_cells(&CAVE, Vector::new(x, y), -1));
        }
    }
    let at = |x: i32, y: i32| (width * y + x) as usize;
    for y in 0..height {
        for x in 0..width {
            for other in 0..width {
                assert_eq!(sights[at(x, y)][at(other, y)], sights[at(other, y)][at(x, y)]);
            }
            for other in 0..height {
                assert_eq!(sights[at(x, y)][at(x, other)], sights[at(x, other)][at(x, y)]);
            }
        }
    }
}

#[test]
fn sight_along_a_row_ends_at_the_first_wall() {
    let rows = ["..#...#..", ".........", "#########"];
    let seen = look(&rows, Vector::new(4, 0), -1);
    assert_eq!(seen[0], "??#.@.#??");
    let seen = look(&rows, Vector::new(0, 1), -1);
    assert_eq!(seen[1], "@........");
    assert_eq!(seen[2], "#########");
}
