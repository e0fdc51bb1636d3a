use cave_fov::fov::refresh_visiblity;
use cave_fov::map::Grid;
use cave_fov::vector::Vector;

/// A map, an observer, a range limit, and the cells in sight marked `1`.
struct Sample {
    map: &'static [&'static str],
    origin: (i32, i32),
    range_limit: i32,
    sight: &'static [&'static str],
}

const SAMPLES: &[Sample] = &[
    Sample {
        map: &[".#.#.", ".##.#", ".#...", ".#.##"],
        origin: (4, 1),
        range_limit: 2,
        sight: &["00011", "00011", "00011", "00000"],
    },
    Sample {
        map: &["....#.", "##....", ".....#", "#.#..."],
        origin: (3, 2),
        range_limit: 4,
        sight: &["111111", "111111", "111111", "111111"],
    },
    Sample {
        map: &[".#.", "...", "#.."],
        origin: (1, 1),
        range_limit: 5,
        sight: &["111", "111", "111"],
    },
    Sample {
        map: &["..###", ".#...", ".....", "....#", "#....", "#.##.", "....."],
        origin: (1, 1),
        range_limit: -1,
        sight: &["11111", "11111", "11111", "11111", "11111", "11111", "01001"],
    },
    Sample {
        map: &["##..", "##..", "....", "..#."],
        origin: (3, 3),
        range_limit: 3,
        sight: &["0000", "0111", "0111", "0011"],
    },
    Sample {
        map: &["..#..#", ".#....", "##...."],
        origin: (3, 0),
        range_limit: -1,
        sight: &["001111", "011111", "011111"],
    },
    Sample {
        map: &["...##.#.#", "#..#.#...", ".#.#....#", "......#..", "####.....", "..####..."],
        origin: (7, 5),
        range_limit: 2,
        sight: &["000000000", "000000000", "000000000", "000000000", "000000111", "000000111"],
    },
    Sample {
        map: &["#.....#..", "......###", "..#.....#", "#.......#", "###.#.#..", "........#", ".##.#....", "...#.##.."],
        origin: (8, 0),
        range_limit: 7,
        sight: &["000000111", "000000111", "000000000", "000000000", "000000000", "000000000", "000000000", "000000000"],
    },
    Sample {
        map: &["...", "##.", "..#", "...", "..#", "..."],
        origin: (1, 0),
        range_limit: 5,
        sight: &["111", "111", "001", "000", "000", "000"],
    },
    Sample {
        map: &["#...", "#..#", "..#.", "....", "#...", "#..#"],
        origin: (3, 3),
        range_limit: 5,
        sight: &["0010", "1011", "1111", "1111", "1111", "1111"],
    },
    Sample {
        map: &["...", "#..", ".##", "#.#", "#..", ".##"],
        origin: (2, 4),
        range_limit: 3,
        sight: &["000", "000", "110", "111", "111", "111"],
    },
    Sample {
        map: &["##..#...", "#.#.....", "##.#####", "...#.#.#", "##..#..#"],
        origin: (6, 3),
        range_limit: 4,
        sight: &["00000000", "00000000", "00000111", "00000111", "00001111"],
    },
    Sample {
        map: &["..###..#.", "..#...#..", "....####.", "...#.##.#", "#.#.#.#..", "#.#..#..."],
        origin: (5, 5),
        range_limit: 3,
        sight: &["000000000", "000000000", "000000000", "000011100", "000111110", "000111110"],
    },
    Sample {
        map: &["..#.", "....", "#...", "....", "..##"],
        origin: (1, 2),
        range_limit: -1,
        sight: &["1111", "1111", "1111", "1111", "1111"],
    },
    Sample {
        map: &[".##.##", ".#..#.", "....#.", "#...#.", "##.#..", "...#..", ".##..#", ".....#", ".##..."],
        origin: (3, 3),
        range_limit: -1,
        sight: &["011110", "111110", "111110", "111110", "111111", "111011", "111001", "100000", "000000"],
    },
    Sample {
        map: &["#.#", "...", "##.", "...", "#..", "...", ".#."],
        origin: (1, 6),
        range_limit: 2,
        sight: &["000", "000", "000", "000", "000", "111", "111"],
    },
    Sample {
        map: &["#...#....", "..###.#.#", "#.#......", "...#....#", "#.#..#..#", "....###.."],
        origin: (3, 3),
        range_limit: 2,
        sight: &["000000000", "000000000", "001110000", "001110000", "001110000", "000000000"],
    },
    Sample {
        map: &["..##....#", "#...##...", ".....#...", "....#....", ".#......#", "#.#....#."],
        origin: (0, 1),
        range_limit: -1,
        sight: &["111101111", "111110000", "111111000", "111111110", "111111001", "101111110"],
    },
    Sample {
        map: &["..##..#", "#...#.#", "......#"],
        origin: (1, 0),
        range_limit: 3,
        sight: &["1110000", "1111000", "1111000"],
    },
    Sample {
        map: &[".#...#..", "##...#..", ".#...##.", "#..##...", "#.#.###.", "......#.", ".#....##", "#..#.#.."],
        origin: (6, 1),
        range_limit: -1,
        sight: &["00000111", "00000111", "00000111", "00000001", "00000000", "00000000", "00000000", "00000000"],
    },
    Sample {
        map: &["#......#", ".....###", "....#...", "#....#.#", "......#.", "#...##.."],
        origin: (1, 4),
        range_limit: -1,
        sight: &["11111110", "11111111", "11111111", "11111101", "11111110", "11111101"],
    },
    Sample {
        map: &["#....#", ".##.#.", "..##..", "#....#", "####.#", "##.###", "#..#.#", "#.#...", "##..##"],
        origin: (4, 2),
        range_limit: 3,
        sight: &["001101", "001111", "000111", "001111", "001111", "000000", "000000", "000000", "000000"],
    },
    Sample {
        map: &["..#...#", ".#.#...", "....##.", "....#..", ".#...#."],
        origin: (2, 3),
        range_limit: 3,
        sight: &["0000000", "1111100", "1111100", "1111100", "1111100"],
    },
    Sample {
        map: &["...", "...", ".##", "#..", ".##", "#..", "...", "#.#", "##."],
        origin: (0, 4),
        range_limit: -1,
        sight: &["000", "000", "011", "111", "110", "111", "011", "001", "000"],
    },
];

fn sight_of(sample: &Sample) -> Vec<String> {
    let width = sample.map[0].len() as i32;
    let height = sample.map.len() as i32;
    let mut grid = Grid::new(Vector::new(width, height), &sample.map.concat());
    refresh_visiblity(&mut grid, sample.range_limit, Vector::new(sample.origin.0, sample.origin.1));
    grid.tiles()
        .chunks(width as usize)
        .map(|row| row.iter().map(|t| if t.visible { '1' } else { '0' }).collect())
        .collect()
}

#[test]
fn scattered_maps_are_seen_as_recorded() {
    for sample in SAMPLES {
        let expected: Vec<String> = sample.sight.iter().map(|row| row.to_string()).collect();
        assert_eq!(sight_of(sample), expected);
    }
}

#[test]
fn every_sample_shows_its_observer() {
    for sample in SAMPLES {
        let sight = sight_of(sample);
        let (ox, oy) = sample.origin;
        assert_eq!(sight[oy as usize].as_bytes()[ox as usize], b'1');
    }
}
