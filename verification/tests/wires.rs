use intcode::wires::{Bounds, Direction, Movement, Pos};

fn mv(direction: Direction, unit: u32) -> Movement {
    Movement { direction, unit }
}

fn crossings(first: &Vec<Movement>, second: &Vec<Movement>) -> (Option<i64>, Option<u64>) {
    let mut bounds = Bounds::new();
    bounds.add_circuit(first);
    bounds.add_circuit(second);
    let mut map = bounds.into_map();
    map.mark_circuit(first);
    (map.find_min_distance(second), map.find_min_steps(second))
}

#[test]
fn bounds_of_two_circuits() {
    let first = vec![
        mv(Direction::Right, 8),
        mv(Direction::Up, 5),
        mv(Direction::Left, 5),
        mv(Direction::Down, 3),
    ];
    let second = vec![
        mv(Direction::Up, 7),
        mv(Direction::Right, 6),
        mv(Direction::Down, 4),
        mv(Direction::Left, 4),
    ];
    let mut bounds = Bounds::new();
    assert_eq!(bounds.get_size(), (1, 1));
    bounds.add_circuit(&first);
    assert_eq!(bounds.get_size(), (9, 6));
    bounds.add_circuit(&second);
    assert_eq!(bounds.get_size(), (9, 8));
    assert_eq!(bounds.get_central_port_position(), Pos { x: 0, y: 0 });
    let mut bounds = Bounds::new();
    bounds.add_circuit(&vec![mv(Direction::Left, 3), mv(Direction::Down, 2), mv(Direction::Right, 10)]);
    assert_eq!(bounds.get_size(), (11, 3));
    assert_eq!(bounds.get_central_port_position(), Pos { x: 3, y: 2 });
}

#[test]
fn movement_passes_each_cell() {
    let mut pos = Pos { x: 2, y: -1 };
    let cells = pos.apply_movement(&mv(Direction::Left, 3));
    assert_eq!(cells, vec![Pos { x: 1, y: -1 }, Pos { x: 0, y: -1 }, Pos { x: -1, y: -1 }]);
    assert_eq!(pos, Pos { x: -1, y: -1 });
    let cells = pos.apply_movement(&mv(Direction::Up, 2));
    assert_eq!(cells, vec![Pos { x: -1, y: 0 }, Pos { x: -1, y: 1 }]);
    assert_eq!(pos.apply_movement(&mv(Direction::Down, 0)), vec![]);
    assert_eq!(pos, Pos { x: -1, y: 1 });
    assert_eq!(pos.apply_movement(&mv(Direction::Right, 1)), vec![Pos { x: 0, y: 1 }]);
    assert_eq!(pos.apply_movement(&mv(Direction::Down, 1)), vec![Pos { x: 0, y: 0 }]);
}

#[test]
fn small_wires_cross_at_6_and_30() {
    let first = vec![
        mv(Direction::Right, 8),
        mv(Direction::Up, 5),
        mv(Direction::Left, 5),
        mv(Direction::Down, 3),
    ];
    let second = vec![
        mv(Direction::Up, 7),
        mv(Direction::Right, 6),
        mv(Direction::Down, 4),
        mv(Direction::Left, 4),
    ];
    assert_eq!(crossings(&first, &second), (Some(6), Some(30)));
}

#[test]
fn longer_wires_cross_at_159_and_610() {
    let first = vec![
        mv(Direction::Right, 75),
        mv(Direction::Down, 30),
        mv(Direction::Right, 83),
        mv(Direction::Up, 83),
        mv(Direction::Left, 12),
        mv(Direction::Down, 49),
        mv(Direction::Right, 71),
        mv(Direction::Up, 7),
        mv(Direction::Left, 72),
    ];
    let second = vec![
        mv(Direction::Up, 62),
        mv(Direction::Right, 66),
        mv(Direction::Up, 55),
        mv(Direction::Right, 34),
        mv(Direction::Down, 71),
        mv(Direction::Right, 55),
        mv(Direction::Down, 58),
        mv(Direction::Right, 83),
    ];
    assert_eq!(crossings(&first, &second), (Some(159), Some(610)));
}

#[test]
fn wires_that_never_meet() {
    let first = vec![mv(Direction::Right, 4)];
    let second = vec![mv(Direction::Up, 4)];
    assert_eq!(crossings(&first, &second), (None, None));
    assert_eq!(crossings(&vec![], &vec![]), (None, None));
}

#[test]
fn a_later_visit_overwrites_the_mark() {
    let first = vec![
        mv(Direction::Right, 2),
        mv(Direction::Up, 1),
        mv(Direction::Left, 1),
        mv(Direction::Down, 1),
        mv(Direction::Right, 2),
    ];
    let second = vec![mv(Direction::Up, 1), mv(Direction::Right, 1), mv(Direction::Down, 1)];
    assert_eq!(crossings(&first, &second), (Some(1), Some(6)));
    let second = vec![mv(Direction::Right, 1)];
    assert_eq!(crossings(&first, &second), (Some(1), Some(6)));
    let second = vec![mv(Direction::Right, 3)];
    assert_eq!(crossings(&first, &second), (Some(1), Some(6)));
}
