use cave_fov::game::{Direction, EntityType, Game};
use cave_fov::map::Grid;
use cave_fov::vector::Vector;

fn grid(rows: &[&str]) -> Grid {
    let text: String = rows.concat();
    Grid::new(Vector::new(rows[0].len() as i32, rows.len() as i32), &text)
}

fn shown(game: &Game) -> Vec<String> {
    let width = game.size().x as usize;
    let cells = game.get_map();
    cells
        .chunks(width)
        .map(|row| {
            row.iter()
                .map(|e| match e {
                    EntityType::Player => '@',
                    EntityType::Hidden => '?',
                    EntityType::Wall => '#',
                    EntityType::Floor => '.',
                })
                .collect()
        })
        .collect()
}

const ROOM: [&str; 5] = ["#######", "#..#..#", "#..#..#", "#.....#", "#######"];

#[test]
fn steps_go_one_cell_in_each_direction() {
    let at = Vector::new(10, -3);
    assert_eq!(Direction::N.step(at), Vector::new(10, -4));
    assert_eq!(Direction::NE.step(at), Vector::new(11, -4));
    assert_eq!(Direction::E.step(at), Vector::new(11, -3));
    assert_eq!(Direction::SE.step(at), Vector::new(11, -2));
    assert_eq!(Direction::S.step(at), Vector::new(10, -2));
    assert_eq!(Direction::SW.step(at), Vector::new(9, -2));
    assert_eq!(Direction::W.step(at), Vector::new(9, -3));
    assert_eq!(Direction::NW.step(at), Vector::new(9, -4));
}

#[test]
fn new_game_looks_around() {
    let game = Game::new(grid(&ROOM), Vector::new(1, 1), -1);
    assert_eq!(game.player(), Vector::new(1, 1));
    assert_eq!(game.range_limit(), -1);
    assert_eq!(game.size(), Vector::new(7, 5));
    assert_eq!(shown(&game), vec!["####???", "#@.#???", "#..#???", "#....??", "#####??"]);
    assert_eq!(game.map().width(), 7);
}

#[test]
fn new_game_hides_what_was_lit_before() {
    let mut map = grid(&ROOM);
    map.set_all_visiblity(true);
    let game = Game::new(map, Vector::new(1, 1), -1);
    assert_eq!(shown(&game), vec!["####???", "#@.#???", "#..#???", "#....??", "#####??"]);
    assert!(game.map().tiles().iter().all(|t| t.seen));
}

#[test]
fn player_walks_where_the_way_is_open() {
    let mut game = Game::new(grid(&ROOM), Vector::new(1, 1), -1);
    game.move_player(Direction::E);
    assert_eq!(game.player(), Vector::new(2, 1));
    game.move_player(Direction::E);
    assert_eq!(game.player(), Vector::new(2, 1));
    game.move_player(Direction::N);
    assert_eq!(game.player(), Vector::new(2, 1));
    game.move_player(Direction::SE);
    assert_eq!(game.player(), Vector::new(2, 1));
    game.move_player(Direction::S);
    assert_eq!(game.player(), Vector::new(2, 2));
    game.move_player(Direction::SE);
    assert_eq!(game.player(), Vector::new(3, 3));
    game.move_player(Direction::NE);
    assert_eq!(game.player(), Vector::new(4, 2));
    game.move_player(Direction::NW);
    assert_eq!(game.player(), Vector::new(4, 2));
    game.move_player(Direction::W);
    assert_eq!(game.player(), Vector::new(4, 2));
    game.move_player(Direction::SW);
    assert_eq!(game.player(), Vector::new(3, 3));
    game.move_player(Direction::W);
    assert_eq!(game.player(), Vector::new(2, 3));
    game.move_player(Direction::NW);
    assert_eq!(game.player(), Vector::new(1, 2));
    game.move_player(Direction::N);
    assert_eq!(game.player(), Vector::new(1, 1));
}

#[test]
fn moving_refreshes_what_is_shown() {
    let mut game = Game::new(grid(&ROOM), Vector::new(1, 1), -1);
    game.move_player(Direction::S);
    game.move_player(Direction::S);
    assert_eq!(game.player(), Vector::new(1, 3));
    let after = shown(&game);
    let fresh = Game::new(grid(&ROOM), Vector::new(1, 3), -1);
    assert_eq!(after, shown(&fresh));
    assert_eq!(after, vec!["####???", "#..#???", "#..#..#", "#@....#", "#######"]);
    let seen: Vec<bool> = game.map().tiles().iter().map(|t| t.seen).collect();
    let visible: Vec<bool> = game.map().tiles().iter().map(|t| t.visible).collect();
    for i in 0..seen.len() {
        assert!(!visible[i] || seen[i]);
    }
    assert!(game.map().get_tile(Vector::new(0, 0)).unwrap().seen);
}

#[test]
fn bump_into_a_wall_still_looks_around() {
    let mut game = Game::new(grid(&ROOM), Vector::new(1, 1), 2);
    let before = shown(&game);
    game.move_player(Direction::W);
    assert_eq!(game.player(), Vector::new(1, 1));
    assert_eq!(shown(&game), before);
    assert_eq!(before, vec!["###????", "#@.????", "#..????", "???????", "???????"]);
    assert_eq!(game.range_limit(), 2);
}
