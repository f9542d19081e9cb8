use intcode::arcade::{get_bounds, insert_coins, play, play_round, ArcadeError, Grid, TileType};
use intcode::asteroids::{
    count_visible, find_base, gcd, get_movement_vector, get_vision_rank, is_visible,
    normalize_vector, Pos,
};
use intcode::moons::{
    advance_time, compute_cycle_len, compute_gravity, compute_gravity_on_axis, lcm, on_same_state,
    simulate, total_energy, update_velocities, Coord, Planet, Vec3,
};
use intcode::scaffold::{camera_view, dust_collected, to_chars, CameraError};
use intcode::Fault;

fn moon(x: i32, y: i32, z: i32) -> Planet {
    Planet { position: Vec3 { x, y, z }, velocity: Vec3 { x: 0, y: 0, z: 0 } }
}

fn four_moons() -> Vec<Planet> {
    vec![moon(-1, 0, 2), moon(2, -10, -7), moon(4, -8, 8), moon(3, 5, -1)]
}

#[test]
fn gravity_between_two() {
    assert_eq!(compute_gravity_on_axis(3, 5), 1);
    assert_eq!(compute_gravity_on_axis(5, 3), -1);
    assert_eq!(compute_gravity_on_axis(4, 4), 0);
    let g = compute_gravity(&Vec3 { x: 1, y: 5, z: 0 }, &Vec3 { x: 2, y: 5, z: -3 });
    assert_eq!(g, Vec3 { x: 1, y: 0, z: -1 });
}

#[test]
fn vectors_add_and_subtract() {
    let mut v = Vec3 { x: 1, y: -2, z: 3 };
    v.add(&Vec3 { x: 10, y: 20, z: -30 });
    assert_eq!(v, Vec3 { x: 11, y: 18, z: -27 });
    v.sub(&Vec3 { x: 1, y: 18, z: 3 });
    assert_eq!(v, Vec3 { x: 10, y: 0, z: -30 });
    assert_eq!(v.get_energy(), 40);
    assert_eq!(Vec3 { x: i32::MIN, y: i32::MIN, z: i32::MIN }.get_energy(), 3 * 2147483648);
    let p = Planet { position: Vec3 { x: 2, y: 1, z: -3 }, velocity: Vec3 { x: -3, y: -2, z: 1 } };
    assert_eq!(p.get_energy(), 36);
}

#[test]
fn moons_after_steps() {
    let mut moons = four_moons();
    assert!(update_velocities(&mut moons));
    assert_eq!(moons[0].velocity, Vec3 { x: 3, y: -1, z: -1 });
    assert_eq!(moons[0].position, Vec3 { x: -1, y: 0, z: 2 });
    let mut moons = four_moons();
    assert!(advance_time(&mut moons));
    assert_eq!(moons[0].position, Vec3 { x: 2, y: -1, z: 1 });
    assert_eq!(moons[1].position, Vec3 { x: 3, y: -7, z: -4 });
    assert_eq!(moons[3].velocity, Vec3 { x: -1, y: -3, z: 1 });
    let mut moons = four_moons();
    assert!(simulate(&mut moons, 10));
    assert_eq!(moons[0].position, Vec3 { x: 2, y: 1, z: -3 });
    assert_eq!(moons[0].velocity, Vec3 { x: -3, y: -2, z: 1 });
    assert_eq!(total_energy(&moons), Some(179));
    assert_eq!(total_energy(&vec![]), Some(0));
}

#[test]
fn moons_overflow_is_reported() {
    let mut moons = vec![
        Planet { position: Vec3 { x: 0, y: 0, z: 0 }, velocity: Vec3 { x: i32::MAX, y: 0, z: 0 } },
        moon(5, 0, 0),
    ];
    let before = moons.clone();
    assert!(!update_velocities(&mut moons));
    assert_eq!(moons, before);
    assert!(!advance_time(&mut moons));
    assert_eq!(moons, before);
    let mut moons = vec![
        Planet { position: Vec3 { x: i32::MAX, y: 0, z: 0 }, velocity: Vec3 { x: 3, y: 0, z: 0 } },
        moon(0, 0, 0),
    ];
    assert!(!advance_time(&mut moons));
    assert_eq!(moons[0].velocity, Vec3 { x: 2, y: 0, z: 0 });
    assert_eq!(moons[0].position, Vec3 { x: i32::MAX, y: 0, z: 0 });
    assert!(!simulate(&mut moons, 3));
}

#[test]
fn moons_cycle() {
    let moons = four_moons();
    let x = compute_cycle_len(&moons, &Coord::X, 10000);
    let y = compute_cycle_len(&moons, &Coord::Y, 10000);
    let z = compute_cycle_len(&moons, &Coord::Z, 10000);
    assert_eq!((x, y, z), (Some(18), Some(28), Some(44)));
    assert_eq!(lcm(18, lcm(28, 44)), 2772);
    assert_eq!(compute_cycle_len(&moons, &Coord::Z, 10), None);
    assert_eq!(intcode::moons::gcd(12, 18), 6);
    assert_eq!(intcode::moons::gcd(0, 7), 7);
    assert_eq!(intcode::moons::gcd(7, 0), 7);
    assert_eq!(intcode::moons::gcd(0, 0), 0);
    assert_eq!(lcm(4, 6), 12);
    assert_eq!(lcm(0, 6), 0);
}

#[test]
fn moons_same_state() {
    let a = four_moons();
    let mut b = four_moons();
    assert!(on_same_state(&a, &b, &Coord::X));
    b[2].velocity.y = 1;
    assert!(on_same_state(&a, &b, &Coord::X));
    assert!(!on_same_state(&a, &b, &Coord::Y));
    assert!(on_same_state(&a, &b, &Coord::Z));
    b.truncate(2);
    assert!(on_same_state(&a, &b, &Coord::Y));
    assert!(on_same_state(&a, &vec![], &Coord::Y));
}

fn asteroid_map(lines: &[&str]) -> (Vec<Vec<bool>>, Vec<Pos>) {
    let map: Vec<Vec<bool>> = lines.iter().map(|l| l.chars().map(|c| c == '#').collect()).collect();
    let mut asteroids = Vec::new();
    for (y, line) in map.iter().enumerate() {
        for (x, a) in line.iter().enumerate() {
            if *a {
                asteroids.push(Pos { x: x as i32, y: y as i32 });
            }
        }
    }
    (map, asteroids)
}

#[test]
fn asteroid_vectors() {
    assert_eq!(get_movement_vector(&Pos { x: 1, y: 2 }, &Pos { x: 4, y: 0 }), (3, -2));
    assert_eq!(gcd(12, -18), 6);
    assert_eq!(gcd(-4, 0), 4);
    assert_eq!(gcd(0, 5), 5);
    assert_eq!(gcd(0, 0), 0);
    assert_eq!(gcd(7, 13), 1);
    let mut v = (6, -9);
    normalize_vector(&mut v);
    assert_eq!(v, (2, -3));
    let mut v = (0, -5);
    normalize_vector(&mut v);
    assert_eq!(v, (0, -1));
    let mut v = (-4, 4);
    normalize_vector(&mut v);
    assert_eq!(v, (-1, 1));
}

#[test]
fn asteroid_vision() {
    let (map, asteroids) = asteroid_map(&[".#..#", ".....", "#####", "....#", "...##"]);
    let from = Pos { x: 3, y: 4 };
    assert_eq!(get_vision_rank(&map, &from, &Pos { x: 4, y: 4 }, (1, 0)), Some(1));
    assert_eq!(get_vision_rank(&map, &from, &Pos { x: 1, y: 0 }, (-2, -4)), Some(2));
    assert!(!is_visible(&map, &from, &Pos { x: 1, y: 0 }, (-2, -4)));
    assert!(is_visible(&map, &from, &Pos { x: 4, y: 0 }, (1, -4)));
    assert_eq!(get_vision_rank(&map, &from, &Pos { x: 9, y: 9 }, (1, 0)), None);
    assert_eq!(count_visible(&map, &asteroids, &from), 8);
    assert_eq!(count_visible(&map, &asteroids, &Pos { x: 4, y: 2 }), 5);
    assert_eq!(find_base(&map, &asteroids), (8, Some(Pos { x: 3, y: 4 })));
    assert_eq!(find_base(&map, &vec![]), (0, None));
    assert_eq!(find_base(&map, &vec![from]), (0, None));
}

#[test]
fn asteroid_larger_map() {
    let (map, asteroids) = asteroid_map(&[
        "......#.#.",
        "#..#.#....",
        "..#######.",
        ".#.#.###..",
        ".#..#.....",
        "..#....#.#",
        "#..#....#.",
        ".##.#..###",
        "##...#..#.",
        ".#....####",
    ]);
    assert_eq!(find_base(&map, &asteroids), (33, Some(Pos { x: 5, y: 8 })));
}

#[test]
fn arcade_screen() {
    let frame = vec![1, 2, 3, 6, 5, 4];
    assert_eq!(get_bounds(&frame), Some((7, 6)));
    assert_eq!(get_bounds(&vec![]), Some((1, 1)));
    assert_eq!(get_bounds(&vec![1, 2]), None);
    assert_eq!(get_bounds(&vec![-1, 0, 5]), None);
    assert_eq!(get_bounds(&vec![0, -3, 5]), None);
    let program = vec![104, 1, 104, 2, 104, 3, 104, 6, 104, 5, 104, 4, 104, 0, 104, 0, 104, 2, 99];
    let grid = match Grid::new(&program) {
        Ok(grid) => grid,
        Err(e) => panic!("{:?}", e),
    };
    assert_eq!((grid.w, grid.h), (7, 6));
    assert_eq!(grid.tab.len(), 42);
    assert_eq!(*grid.at(1, 2), TileType::Paddle);
    assert_eq!(*grid.at(6, 5), TileType::Ball);
    assert_eq!(*grid.at(0, 0), TileType::Block);
    assert_eq!(*grid.at(3, 3), TileType::Empty);
    assert_eq!((grid.paddle_pos_x, grid.ball_pos_x, grid.score), (1, 6, -1));
    assert_eq!(grid.count_blocks(), 1);
    assert!(matches!(Grid::new(&vec![104, 1, 104, 1, 104, 9, 99]), Err(ArcadeError::BadFrame)));
    assert!(matches!(Grid::new(&vec![104, -1, 104, 0, 104, 9, 99]), Err(ArcadeError::BadFrame)));
    assert!(matches!(Grid::new(&vec![104, 1, 99]), Err(ArcadeError::BadFrame)));
    assert!(matches!(
        Grid::new(&vec![104, 1, 98]),
        Err(ArcadeError::Fault(Fault::UnknownOpcode(98)))
    ));
}

#[test]
fn arcade_fill() {
    let mut grid = match Grid::new(&vec![104, 2, 104, 1, 104, 1, 99]) {
        Ok(grid) => grid,
        Err(e) => panic!("{:?}", e),
    };
    assert_eq!((grid.w, grid.h), (3, 2));
    assert!(grid.fill(&vec![-1, 0, 77, 0, 0, 4, 1, 1, 3, 2, 1, 2]));
    assert_eq!(grid.score, 77);
    assert_eq!((grid.ball_pos_x, grid.paddle_pos_x), (0, 1));
    assert_eq!(
        grid.tab,
        vec![
            TileType::Ball,
            TileType::Empty,
            TileType::Empty,
            TileType::Empty,
            TileType::Paddle,
            TileType::Block
        ]
    );
    assert!(!grid.fill(&vec![0, 0, 1, 0, 2, 1]));
    assert_eq!(grid.tab[0], TileType::Wall);
    assert!(!grid.fill(&vec![0, 0, 5]));
    assert!(!grid.fill(&vec![0, 0]));
    assert!(!grid.fill(&vec![-2, 0, 1]));
    assert!(grid.fill(&vec![5, 0, 0]));
    assert_eq!(grid.tab[5], TileType::Empty);
}

#[test]
fn arcade_play() {
    let program = vec![0, 0, 0, 50, 3, 51, 104, -1, 104, 0, 4, 51, 99];
    let grid = match Grid::new(&vec![104, 0, 104, 0, 104, 0, 99]) {
        Ok(grid) => grid,
        Err(e) => panic!("{:?}", e),
    };
    assert_eq!(play(program.clone(), grid, 10), Ok(1));
    let grid = match Grid::new(&vec![104, 0, 104, 0, 104, 0, 99]) {
        Ok(grid) => grid,
        Err(e) => panic!("{:?}", e),
    };
    assert_eq!(play(program, grid, 0), Err(ArcadeError::RoundLimit));
    let follows = vec![
        0, 0, 0, 50, 104, 2, 104, 0, 104, 3, 104, 0, 104, 0, 104, 4, 3, 51, 104, -1, 104, 0, 4, 51,
        3, 51, 104, -1, 104, 0, 4, 51, 99,
    ];
    let grid = match Grid::new(&vec![104, 2, 104, 0, 104, 0, 99]) {
        Ok(grid) => grid,
        Err(e) => panic!("{:?}", e),
    };
    assert_eq!(play(follows.clone(), grid, 10), Ok(-1));
    let small = match Grid::new(&vec![104, 1, 104, 0, 104, 0, 99]) {
        Ok(grid) => grid,
        Err(e) => panic!("{:?}", e),
    };
    assert_eq!(play(follows.clone(), small, 10), Err(ArcadeError::BadFrame));
    let grid = match Grid::new(&vec![104, 2, 104, 0, 104, 0, 99]) {
        Ok(grid) => grid,
        Err(e) => panic!("{:?}", e),
    };
    assert_eq!(play(follows, grid, 1), Err(ArcadeError::RoundLimit));
}

#[test]
fn camera_and_dust() {
    assert_eq!(to_chars(&vec![35, 46, 10, 256 + 35, -221]), vec!['#', '.', '\n', '#', '#']);
    let view = ["..#..........", "..#..........", "#######...###", "#.#...#...#.#", "#############", "..#...#...#..", "..#####...^.."];
    let mut program = Vec::new();
    for line in view.iter() {
        for c in line.chars() {
            program.push(104);
            program.push(c as i64);
        }
        program.push(104);
        program.push(10);
    }
    program.push(99);
    let grid = match camera_view(&program) {
        Ok(grid) => grid,
        Err(e) => panic!("{:?}", e),
    };
    assert_eq!((grid.w, grid.h), (14, 7));
    assert!(grid.is_scaffold(2, 0));
    assert!(!grid.is_scaffold(0, 0));
    assert!(!grid.is_scaffold(13, 2));
    assert!(!grid.is_scaffold(10, 6));
    assert_eq!(grid.alignment_sum(), Some(76));
    assert!(matches!(camera_view(&vec![104, 35, 99]), Err(CameraError::NoRows)));
    assert!(matches!(
        camera_view(&vec![104, 35, 0]),
        Err(CameraError::Fault(Fault::UnknownOpcode(0)))
    ));
    let echo = vec![3, 20, 3, 21, 1, 20, 21, 22, 4, 20, 4, 22, 99];
    assert_eq!(dust_collected(&echo, "A\n".as_bytes()), Ok(Some(75)));
    assert_eq!(dust_collected(&vec![99], "A\n".as_bytes()), Ok(None));
    assert_eq!(dust_collected(&vec![3, 0, 3, 1, 99], &[]), Ok(None));
    assert_eq!(dust_collected(&vec![3, -1], &[1]), Err(Fault::InvalidAddress));
}

#[test]
fn arcade_round_by_round() {
    let follows = vec![
        0, 0, 0, 50, 104, 2, 104, 0, 104, 3, 104, 0, 104, 0, 104, 4, 3, 51, 104, -1, 104, 0, 4, 51,
        3, 51, 104, -1, 104, 0, 4, 51, 99,
    ];
    let mut grid = match Grid::new(&vec![104, 2, 104, 0, 104, 0, 99]) {
        Ok(grid) => grid,
        Err(e) => panic!("{:?}", e),
    };
    let mut program = insert_coins(follows);
    assert_eq!(program.memory[0], 2);
    assert_eq!(play_round(&mut program, &mut grid, 1), Ok(Some(-1)));
    assert_eq!((grid.paddle_pos_x, grid.ball_pos_x, grid.score), (2, 0, 1));
    assert!(!program.is_done());
    assert_eq!(play_round(&mut program, &mut grid, -1), Ok(None));
    assert_eq!(grid.score, -1);
    assert!(program.is_done());
}

#[test]
fn arcade_screen_as_text() {
    let program = vec![104, 1, 104, 2, 104, 3, 104, 3, 104, 1, 104, 4, 104, 0, 104, 0, 104, 2, 104, 2, 104, 0, 104, 1, 99];
    let grid = match Grid::new(&program) {
        Ok(grid) => grid,
        Err(e) => panic!("{:?}", e),
    };
    assert_eq!((grid.w, grid.h), (4, 3));
    assert_eq!(grid.to_string(), "O W \n   X\n _  \n");
    assert_eq!(TileType::Paddle.to_char(), '_');
    assert_eq!(TileType::Empty.to_char(), ' ');
}
