use intcode::droid::{
    add_empty_tile, explore, run_continuation, spread_oxygen, Continuation, DroidError, Grid,
    TileType,
};
use intcode::orbits::{compute_graph_levels, orbital_transfers, total_orbits, Level, Orbit};
use intcode::reactions::{
    can_produce_fuel, compound_from, max_fuel, ore_needed, produce_fuel, Compound, ReactionError,
    Recipe,
};
use intcode::robot::{get_bounds, render, run_robot, Bounds, Panel, Pos, RobotError};
use intcode::text::parse_decimal;
use intcode::wires::{Direction, Movement};
use intcode::{Fault, Intcode};

#[test]
fn decimal_numbers() {
    assert_eq!(parse_decimal("123".as_bytes(), 0, 3), Some(123));
    assert_eq!(parse_decimal("x123y".as_bytes(), 1, 4), Some(123));
    assert_eq!(parse_decimal("x123y".as_bytes(), 1, 5), None);
    assert_eq!(parse_decimal("123".as_bytes(), 1, 1), None);
    assert_eq!(parse_decimal("007".as_bytes(), 0, 3), Some(7));
    assert_eq!(parse_decimal("18446744073709551615".as_bytes(), 0, 20), Some(u64::MAX));
    assert_eq!(parse_decimal("18446744073709551616".as_bytes(), 0, 20), None);
    assert_eq!(parse_decimal("-5".as_bytes(), 0, 2), None);
}

#[test]
fn movements_from_text() {
    assert_eq!(Movement::from_str("R75"), Some(Movement { direction: Direction::Right, unit: 75 }));
    assert_eq!(Movement::from_str("U0"), Some(Movement { direction: Direction::Up, unit: 0 }));
    assert_eq!(Movement::from_str("D+12"), Some(Movement { direction: Direction::Down, unit: 12 }));
    assert_eq!(
        Movement::from_str("L4294967295"),
        Some(Movement { direction: Direction::Left, unit: u32::MAX })
    );
    assert_eq!(Movement::from_str("L4294967296"), None);
    assert_eq!(Movement::from_str("X5"), None);
    assert_eq!(Movement::from_str("R"), None);
    assert_eq!(Movement::from_str("R+"), None);
    assert_eq!(Movement::from_str(""), None);
    assert_eq!(Movement::from_str("R-5"), None);
    assert_eq!(Movement::from_str("R5 "), None);
    assert_eq!(Movement::from_str("r5"), None);
}

fn recipes(lines: &[&str]) -> Vec<Recipe> {
    lines
        .iter()
        .map(|l| match Recipe::from_str(l) {
            Some(r) => r,
            None => panic!("no recipe in {}", l),
        })
        .collect()
}

#[test]
fn recipes_from_text() {
    let r = match Recipe::from_str("7 A, 1 B => 1 C") {
        Some(r) => r,
        None => panic!("no recipe"),
    };
    assert_eq!(r.ingredients.len(), 2);
    assert_eq!((r.ingredients[0].element.as_str(), r.ingredients[0].count), ("A", 7));
    assert_eq!((r.ingredients[1].element.as_str(), r.ingredients[1].count), ("B", 1));
    assert_eq!((r.product.element.as_str(), r.product.count), ("C", 1));
    let r = match Recipe::from_str("10 ORE => 10 A") {
        Some(r) => r,
        None => panic!("no recipe"),
    };
    assert_eq!(r.ingredients.len(), 1);
    assert_eq!((r.product.element.as_str(), r.product.count), ("A", 10));
    assert!(Recipe::from_str("nothing here").is_none());
    assert!(Recipe::from_str("").is_none());
    assert!(Recipe::from_str("99999999999999999999 A => 1 B").is_none());
    let pair = ("12".to_string(), "FUEL".to_string());
    let c = match compound_from(&pair) {
        Some(c) => c,
        None => panic!("no compound"),
    };
    assert_eq!((c.element.as_str(), c.count), ("FUEL", 12));
    assert!(compound_from(&("x".to_string(), "FUEL".to_string())).is_none());
    assert!(compound_from(&("".to_string(), "FUEL".to_string())).is_none());
    let from_pairs = Recipe::from_pairs(&vec![
        ("3".to_string(), "A".to_string()),
        ("4".to_string(), "B".to_string()),
    ]);
    assert!(matches!(from_pairs, Some(r) if r.product.count == 4 && r.ingredients.len() == 1));
    assert!(Recipe::from_pairs(&vec![]).is_none());
}

#[test]
fn ore_for_fuel() {
    let small = recipes(&[
        "10 ORE => 10 A",
        "1 ORE => 1 B",
        "7 A, 1 B => 1 C",
        "7 A, 1 C => 1 D",
        "7 A, 1 D => 1 E",
        "7 A, 1 E => 1 FUEL",
    ]);
    assert_eq!(ore_needed(&small, 1, 1000), Ok(Some(31)));
    assert_eq!(ore_needed(&small, 1, 3), Err(ReactionError::StepLimit));
    assert_eq!(ore_needed(&small, 0, 1000), Ok(None));
    let second = recipes(&[
        "9 ORE => 2 A",
        "8 ORE => 3 B",
        "7 ORE => 5 C",
        "3 A, 4 B => 1 AB",
        "5 B, 7 C => 1 BC",
        "4 C, 1 A => 1 CA",
        "2 AB, 3 BC, 4 CA => 1 FUEL",
    ]);
    assert_eq!(ore_needed(&second, 1, 1000), Ok(Some(165)));
    let mut rest: Vec<Compound> = Vec::new();
    assert_eq!(produce_fuel(&second, 1, false, &mut rest, 1000), Ok(true));
    let left: Vec<(String, u64)> = rest.iter().map(|c| (c.element.clone(), c.count)).collect();
    assert!(left.contains(&("ORE".to_string(), 165)));
    assert!(left.contains(&("B".to_string(), 1)));
    assert!(left.contains(&("C".to_string(), 3)));
    let mut stock = vec![Compound { element: "ORE".to_string(), count: 164 }];
    assert_eq!(produce_fuel(&second, 1, true, &mut stock, 1000), Ok(false));
    let mut stock = vec![Compound { element: "ORE".to_string(), count: 165 }];
    assert_eq!(produce_fuel(&second, 1, true, &mut stock, 1000), Ok(true));
    assert_eq!(stock[0].count, 0);
    let mut none: Vec<Compound> = Vec::new();
    assert_eq!(produce_fuel(&second, 1, true, &mut none, 1000), Err(ReactionError::NoStock));
}

#[test]
fn reaction_errors() {
    let zero = recipes(&["1 ORE => 0 FUEL"]);
    assert_eq!(ore_needed(&zero, 1, 10), Err(ReactionError::ZeroYield));
    let big = recipes(&["18446744073709551615 ORE => 1 FUEL"]);
    assert_eq!(ore_needed(&big, 2, 10), Err(ReactionError::Overflow));
    assert_eq!(ore_needed(&big, 1, 10), Ok(Some(u64::MAX)));
    let cycle = recipes(&["1 A => 1 FUEL", "1 FUEL => 1 A"]);
    assert_eq!(ore_needed(&cycle, 1, 50), Err(ReactionError::StepLimit));
    let none: Vec<Recipe> = Vec::new();
    assert_eq!(ore_needed(&none, 5, 10), Ok(None));
    assert_eq!(can_produce_fuel(&none, 5, 10), Err(ReactionError::NoStock));
}

#[test]
fn most_fuel_from_the_hold() {
    let third = recipes(&[
        "157 ORE => 5 NZVS",
        "165 ORE => 6 DCFZ",
        "44 XJWVT, 5 KHKGT, 1 QDVJ, 29 NZVS, 9 GPVTF, 48 HKGWZ => 1 FUEL",
        "12 HKGWZ, 1 GPVTF, 8 PSHF => 9 QDVJ",
        "179 ORE => 7 PSHF",
        "177 ORE => 5 HKGWZ",
        "7 DCFZ, 7 PSHF => 2 XJWVT",
        "165 ORE => 2 GPVTF",
        "3 DCFZ, 7 NZVS, 5 HKGWZ, 10 PSHF => 8 KHKGT",
    ]);
    assert_eq!(ore_needed(&third, 1, 1000), Ok(Some(13312)));
    assert_eq!(can_produce_fuel(&third, 82892753, 1000), Ok(true));
    assert_eq!(can_produce_fuel(&third, 82892754, 1000), Ok(false));
    assert_eq!(max_fuel(&third, 1000), Ok(82892753));
    let cheap = recipes(&["1 ORE => 1 FUEL"]);
    assert_eq!(max_fuel(&cheap, 10), Ok(1000000000000));
    let dear = recipes(&["1000000000001 ORE => 1 FUEL"]);
    assert_eq!(max_fuel(&dear, 10), Ok(1));
}

fn orbit(center: &str, satellite: &str) -> Orbit {
    Orbit { center: center.to_string(), satellite: satellite.to_string() }
}

fn depth(levels: &Vec<Level>, name: &str) -> Option<u32> {
    levels.iter().find(|l| l.name == name).map(|l| l.level)
}

#[test]
fn orbit_depths() {
    let orbits = vec![
        orbit("COM", "B"),
        orbit("B", "C"),
        orbit("C", "D"),
        orbit("D", "E"),
        orbit("E", "F"),
        orbit("B", "G"),
        orbit("G", "H"),
        orbit("D", "I"),
        orbit("E", "J"),
        orbit("J", "K"),
        orbit("K", "L"),
    ];
    let levels = match compute_graph_levels(&orbits, &vec!["COM".to_string()], 100) {
        Some(levels) => levels,
        None => panic!("no levels"),
    };
    assert_eq!(levels.len(), 12);
    assert_eq!(depth(&levels, "COM"), Some(0));
    assert_eq!(depth(&levels, "D"), Some(3));
    assert_eq!(depth(&levels, "L"), Some(7));
    assert_eq!(depth(&levels, "H"), Some(3));
    assert_eq!(total_orbits(&levels), 42);
    assert!(compute_graph_levels(&orbits, &vec!["COM".to_string()], 7).is_none());
    assert!(matches!(compute_graph_levels(&orbits, &vec![], 0), Some(l) if l.is_empty()));
    let ring = vec![orbit("A", "B"), orbit("B", "A")];
    assert!(compute_graph_levels(&ring, &vec!["A".to_string()], 1000).is_none());
}

#[test]
fn orbit_transfers() {
    let orbits = vec![
        orbit("COM", "B"),
        orbit("B", "C"),
        orbit("C", "D"),
        orbit("D", "E"),
        orbit("E", "F"),
        orbit("B", "G"),
        orbit("G", "H"),
        orbit("D", "I"),
        orbit("E", "J"),
        orbit("J", "K"),
        orbit("K", "L"),
        orbit("K", "YOU"),
        orbit("I", "SAN"),
    ];
    let levels = match compute_graph_levels(&orbits, &vec!["COM".to_string()], 100) {
        Some(levels) => levels,
        None => panic!("no levels"),
    };
    let you = "YOU".to_string();
    let san = "SAN".to_string();
    assert_eq!(orbital_transfers(&orbits, &levels, &you, &san, 100), Some(4));
    assert_eq!(orbital_transfers(&orbits, &levels, &san, &you, 100), Some(4));
    assert_eq!(orbital_transfers(&orbits, &levels, &you, &san, 3), None);
    assert_eq!(orbital_transfers(&orbits, &levels, &you, &"COM".to_string(), 100), None);
    assert_eq!(orbital_transfers(&orbits, &levels, &you, &"L".to_string(), 100), Some(0));
    assert_eq!(orbital_transfers(&orbits, &vec![], &you, &san, 100), None);
}

#[test]
fn robot_paints() {
    let once = vec![3, 100, 104, 1, 104, 0, 99];
    assert_eq!(run_robot(&once, 0, 10), Ok(vec![Panel { x: 0, y: 0, color: 1 }]));
    let twice = vec![3, 100, 104, 1, 104, 0, 3, 100, 104, 0, 104, 1, 99];
    let painted = match run_robot(&twice, 7, 10) {
        Ok(p) => p,
        Err(e) => panic!("{:?}", e),
    };
    assert_eq!(painted, vec![Panel { x: 0, y: 0, color: 1 }, Panel { x: 0, y: -1, color: 0 }]);
    assert_eq!(run_robot(&twice, 7, 1), Err(RobotError::RoundLimit));
    assert_eq!(run_robot(&vec![3, 100, 104, 1, 99], 0, 10), Err(RobotError::BadOutput));
    assert_eq!(
        run_robot(&vec![3, 100, 33], 0, 10),
        Err(RobotError::Fault(Fault::UnknownOpcode(33)))
    );
    let echo = vec![3, 100, 4, 100, 104, 0, 3, 100, 104, 5, 104, 0, 3, 100, 104, 5, 104, 0, 3, 100, 104, 5, 104, 0, 3, 100, 4, 100, 104, 0, 99];
    let painted = match run_robot(&echo, 9, 10) {
        Ok(p) => p,
        Err(e) => panic!("{:?}", e),
    };
    assert_eq!(painted.len(), 4);
    assert_eq!(painted[0], Panel { x: 0, y: 0, color: 9 });
    let bounds = get_bounds(&painted);
    assert_eq!(bounds, Bounds { min: Pos { x: 0, y: -1 }, max: Pos { x: 1, y: 0 } });
    assert_eq!(get_bounds(&vec![]), Bounds { min: Pos { x: 0, y: 0 }, max: Pos { x: 0, y: 0 } });
    assert_eq!(
        get_bounds(&vec![Panel { x: 3, y: 4, color: 1 }, Panel { x: -2, y: 9, color: 0 }]),
        Bounds { min: Pos { x: -2, y: 0 }, max: Pos { x: 3, y: 9 } }
    );
}

#[test]
fn droid_map_cells() {
    let mut grid = Grid::new();
    assert_eq!((grid.w, grid.h), (50, 50));
    assert_eq!(*grid.at(3, 4), TileType::Unknown);
    assert_eq!(grid.get_distance(3, 4), u32::MAX);
    grid.set_at(3, 4, TileType::Wall);
    grid.set_distance(3, 4, 17);
    assert_eq!(*grid.at(3, 4), TileType::Wall);
    assert_eq!(*grid.at(4, 3), TileType::Unknown);
    assert_eq!(grid.get_distance(3, 4), 17);
    assert_eq!(grid.map[4 * 50 + 3], TileType::Wall);
    assert_eq!(grid.get_oxygen_position(), (0, 0));
    grid.set_oxygen_position(7, 8);
    assert_eq!(grid.get_oxygen_position(), (7, 8));
    let mut stack = Vec::new();
    add_empty_tile(3, 4, 5, &grid, &mut stack);
    assert!(stack.is_empty());
    grid.set_at(3, 4, TileType::Empty);
    add_empty_tile(3, 4, 17, &grid, &mut stack);
    assert!(stack.is_empty());
    add_empty_tile(3, 4, 16, &grid, &mut stack);
    assert_eq!(stack, vec![(3, 4)]);
}

#[test]
fn droid_tries_a_movement() {
    let program = vec![3, 20, 4, 20, 1105, 1, 0];
    let pgm = Intcode::new(&program);
    let mut grid = Grid::new();
    let mut conts: Vec<Continuation> = Vec::new();
    assert_eq!(run_continuation(&pgm, 5, 6, 1, 3, &mut grid, &mut conts), Ok(()));
    assert_eq!(*grid.at(5, 6), TileType::Empty);
    assert_eq!(grid.get_distance(5, 6), 3);
    assert_eq!(conts.len(), 1);
    assert_eq!((conts[0].x, conts[0].y), (5, 6));
    assert_eq!(conts[0].pgm.memory[20], 1);
    assert_eq!(pgm.memory.len(), 7);
    assert_eq!(run_continuation(&pgm, 5, 6, 1, 3, &mut grid, &mut conts), Ok(()));
    assert_eq!(conts.len(), 1);
    assert_eq!(run_continuation(&pgm, 5, 6, 2, 2, &mut grid, &mut conts), Ok(()));
    assert_eq!(*grid.at(5, 6), TileType::OxygenSystem);
    assert_eq!(grid.get_oxygen_position(), (5, 6));
    assert_eq!(conts.len(), 1);
    assert_eq!(run_continuation(&pgm, 5, 6, 0, 0, &mut grid, &mut conts), Ok(()));
    assert_eq!(*grid.at(5, 6), TileType::OxygenSystem);
    assert_eq!(run_continuation(&pgm, 1, 1, 0, 9, &mut grid, &mut conts), Ok(()));
    assert_eq!(*grid.at(1, 1), TileType::Wall);
    assert_eq!(run_continuation(&pgm, 2, 2, 3, 9, &mut grid, &mut conts), Err(DroidError::BadStatus));
    let silent = Intcode::new(&vec![3, 20, 3, 20, 99]);
    assert_eq!(run_continuation(&silent, 2, 2, 1, 9, &mut grid, &mut conts), Err(DroidError::BadStatus));
    let broken = Intcode::new(&vec![3, 20, 42]);
    assert_eq!(
        run_continuation(&broken, 2, 2, 1, 9, &mut grid, &mut conts),
        Err(DroidError::Fault(Fault::UnknownOpcode(42)))
    );
    assert_eq!(*grid.at(2, 2), TileType::Unknown);
}

#[test]
fn droid_explores_and_oxygen_spreads() {
    let oxygen_all_round = vec![3, 20, 104, 2, 1105, 1, 0];
    let mut grid = Grid::new();
    assert_eq!(explore(&oxygen_all_round, &mut grid, 100), Ok(1));
    assert_eq!(grid.get_oxygen_position(), (26, 25));
    assert_eq!(*grid.at(25, 25), TileType::Empty);
    assert_eq!(*grid.at(25, 24), TileType::OxygenSystem);
    assert_eq!(spread_oxygen(&mut grid, 100), Ok(1));
    assert_eq!(grid.get_distance(26, 25), 0);
    assert_eq!(grid.get_distance(25, 25), 1);
    assert_eq!(grid.get_distance(25, 24), u32::MAX);
    let walls = vec![3, 20, 104, 0, 1105, 1, 0];
    let mut grid = Grid::new();
    assert_eq!(explore(&walls, &mut grid, 100), Ok(u32::MAX));
    assert_eq!(*grid.at(24, 25), TileType::Wall);
    let open = vec![3, 20, 104, 1, 1105, 1, 0];
    let mut grid = Grid::new();
    assert_eq!(explore(&open, &mut grid, 100000), Err(DroidError::OffMap));
    let mut grid = Grid::new();
    assert_eq!(explore(&open, &mut grid, 3), Err(DroidError::StepLimit));
    let mut grid = Grid::new();
    assert_eq!(explore(&oxygen_all_round, &mut grid, 0), Err(DroidError::StepLimit));
    let mut grid = Grid::new();
    grid.set_oxygen_position(2, 2);
    grid.set_at(2, 2, TileType::OxygenSystem);
    grid.set_at(3, 2, TileType::Empty);
    grid.set_at(4, 2, TileType::Empty);
    grid.set_at(4, 3, TileType::Empty);
    assert_eq!(spread_oxygen(&mut grid, 100), Ok(3));
    assert_eq!(grid.get_distance(4, 3), 3);
    assert_eq!(spread_oxygen(&mut grid, 2), Err(DroidError::StepLimit));
    grid.set_oxygen_position(0, 0);
    assert_eq!(spread_oxygen(&mut grid, 100), Err(DroidError::OffMap));
}

#[test]
fn pictures_as_text() {
    let painted = vec![
        Panel { x: 0, y: 0, color: 1 },
        Panel { x: 1, y: -1, color: 1 },
        Panel { x: 1, y: 0, color: 0 },
        Panel { x: 2, y: 1, color: 1 },
    ];
    let bounds = get_bounds(&painted);
    assert_eq!(render(&painted, &bounds), " X \nX  \n  X\n");
    assert_eq!(render(&vec![], &get_bounds(&vec![])), " \n");
    let upside = Bounds { min: Pos { x: 1, y: 1 }, max: Pos { x: 0, y: 0 } };
    assert_eq!(render(&painted, &upside), "");
    let mut grid = Grid::new();
    grid.set_at(0, 0, TileType::Wall);
    grid.set_at(1, 0, TileType::Empty);
    grid.set_at(49, 0, TileType::OxygenSystem);
    grid.set_at(25, 25, TileType::Wall);
    let text = grid.to_string();
    let lines: Vec<&str> = text.split('\n').collect();
    assert_eq!(lines.len(), 51);
    assert_eq!(lines[50], "");
    assert_eq!(lines[0], format!("#.{}O", " ".repeat(47)));
    assert_eq!(lines[25], format!("{}D{}", " ".repeat(25), " ".repeat(24)));
    assert_eq!(lines[1], " ".repeat(50));
}
