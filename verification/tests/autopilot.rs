use rsnake::autopilot::{
    avoid_hazard, avoid_hazard_with, avoid_trapping_with, detect_hazard, find_food,
    occupied_neighbors, smart_autopilot_with, stupid_autopilot_with,
};
use rsnake::grid::Grid;
use rsnake::orientation::{Direction, Point};
use rsnake::snake::Snake;

fn cell(x: i32, y: i32) -> Point {
    Point::new(x, y)
}

/// A grid of `size` with the snake `cells` marked on it, the food at `food`
/// and a wall on each of `walls`.
fn scene(
    size: (u32, u32),
    cells: Vec<Point>,
    heading: Direction,
    food: Point,
    walls: Vec<Point>,
) -> (Snake, Grid) {
    let snake = Snake::with_body(size, cells, heading).unwrap();
    let mut map = Grid::empty(size);
    for w in walls {
        map.add_wall(w);
    }
    map.init_snake(snake.get_tail());
    assert!(map.put_food(food));
    (snake, map)
}

fn line(heading: Direction, food: Point, walls: Vec<Point>) -> (Snake, Grid) {
    let cells = match heading {
        Direction::E => vec![cell(5, 5), cell(4, 5), cell(3, 5)],
        Direction::W => vec![cell(5, 5), cell(6, 5), cell(7, 5)],
        Direction::N => vec![cell(5, 5), cell(5, 6), cell(5, 7)],
        Direction::S => vec![cell(5, 5), cell(5, 4), cell(5, 3)],
    };
    scene((11, 11), cells, heading, food, walls)
}

#[test]
fn detect_hazard_sees_wall_and_body_but_not_food() {
    let (snake, map) = line(Direction::E, cell(6, 5), vec![]);
    assert!(!detect_hazard(&snake, &map));
    let (snake, map) = line(Direction::E, cell(0, 0), vec![]);
    assert!(!detect_hazard(&snake, &map));
    let (snake, map) = line(Direction::E, cell(0, 0), vec![cell(6, 5)]);
    assert!(detect_hazard(&snake, &map));
    let (mut snake, map) = line(Direction::E, cell(0, 0), vec![]);
    snake.turn(Direction::W);
    assert!(detect_hazard(&snake, &map));
}

#[test]
fn detect_hazard_looks_across_the_edge() {
    let (snake, map) =
        scene((4, 4), vec![cell(3, 1), cell(2, 1)], Direction::E, cell(2, 2), vec![cell(0, 1)]);
    assert!(detect_hazard(&snake, &map));
}

#[test]
fn find_food_corrects_rows_before_columns() {
    let (mut snake, map) = line(Direction::E, cell(8, 8), vec![]);
    find_food(&mut snake, &map);
    assert_eq!(snake.direction(), Direction::S);
    let (mut snake, map) = line(Direction::E, cell(8, 2), vec![]);
    find_food(&mut snake, &map);
    assert_eq!(snake.direction(), Direction::N);
    let (mut snake, map) = line(Direction::W, cell(8, 2), vec![]);
    find_food(&mut snake, &map);
    assert_eq!(snake.direction(), Direction::N);
}

#[test]
fn find_food_corrects_columns_once_the_row_is_right() {
    let (mut snake, map) = line(Direction::N, cell(8, 5), vec![]);
    find_food(&mut snake, &map);
    assert_eq!(snake.direction(), Direction::E);
    let (mut snake, map) = line(Direction::S, cell(2, 5), vec![]);
    find_food(&mut snake, &map);
    assert_eq!(snake.direction(), Direction::W);
}

#[test]
fn find_food_never_turns_along_the_axis_it_moves_on() {
    let (mut snake, map) = line(Direction::N, cell(5, 8), vec![]);
    find_food(&mut snake, &map);
    assert_eq!(snake.direction(), Direction::N);
    let (mut snake, map) = line(Direction::S, cell(8, 2), vec![]);
    find_food(&mut snake, &map);
    assert_eq!(snake.direction(), Direction::S);
    let (mut snake, map) = line(Direction::E, cell(2, 5), vec![]);
    find_food(&mut snake, &map);
    assert_eq!(snake.direction(), Direction::E);
    let (mut snake, map) = line(Direction::W, cell(8, 5), vec![]);
    find_food(&mut snake, &map);
    assert_eq!(snake.direction(), Direction::W);
}

#[test]
fn find_food_takes_the_shorter_way_round_the_grid() {
    let (mut snake, map) = line(Direction::E, cell(5, 10), vec![]);
    find_food(&mut snake, &map);
    assert_eq!(snake.direction(), Direction::S);
    let (mut snake, map) = line(Direction::E, cell(5, 0), vec![]);
    find_food(&mut snake, &map);
    assert_eq!(snake.direction(), Direction::N);
    let (mut snake, map) =
        scene((11, 11), vec![cell(1, 1), cell(1, 2)], Direction::N, cell(9, 1), vec![]);
    find_food(&mut snake, &map);
    assert_eq!(snake.direction(), Direction::W);
    let (mut snake, map) =
        scene((11, 11), vec![cell(1, 1), cell(2, 1)], Direction::W, cell(1, 9), vec![]);
    find_food(&mut snake, &map);
    assert_eq!(snake.direction(), Direction::N);
    let (mut snake, map) =
        scene((11, 11), vec![cell(9, 9), cell(8, 9)], Direction::E, cell(9, 1), vec![]);
    find_food(&mut snake, &map);
    assert_eq!(snake.direction(), Direction::S);
}

#[test]
fn find_food_stays_the_course_rather_than_turn_into_a_hazard() {
    let (mut snake, map) = line(Direction::E, cell(8, 8), vec![cell(5, 6)]);
    find_food(&mut snake, &map);
    assert_eq!(snake.direction(), Direction::E);
    let (mut snake, map) = line(Direction::E, cell(8, 8), vec![cell(5, 6), cell(6, 5)]);
    find_food(&mut snake, &map);
    assert_eq!(snake.direction(), Direction::E);
}

#[test]
fn find_food_changes_the_heading_only() {
    let (mut snake, map) = line(Direction::E, cell(8, 8), vec![]);
    find_food(&mut snake, &map);
    assert_eq!(*snake.head(), cell(5, 5));
    assert_eq!(*snake.end(), cell(3, 5));
    assert_eq!(snake.last_direction(), Direction::E);
    assert_eq!(snake.length(), 3);
}

#[test]
fn avoid_hazard_does_nothing_with_a_free_way_ahead() {
    for left in [true, false] {
        let (mut snake, map) = line(Direction::E, cell(0, 0), vec![cell(5, 4), cell(5, 6)]);
        assert!(!avoid_hazard_with(&mut snake, &map, left));
        assert_eq!(snake.direction(), Direction::E);
    }
}

#[test]
fn avoid_hazard_turns_to_the_side_that_is_named() {
    let (mut snake, map) = line(Direction::E, cell(0, 0), vec![cell(6, 5)]);
    assert!(avoid_hazard_with(&mut snake, &map, true));
    assert_eq!(snake.direction(), Direction::N);
    let (mut snake, map) = line(Direction::E, cell(0, 0), vec![cell(6, 5)]);
    assert!(avoid_hazard_with(&mut snake, &map, false));
    assert_eq!(snake.direction(), Direction::S);
}

#[test]
fn avoid_hazard_takes_the_other_side_where_the_first_is_barred() {
    let (mut snake, map) = line(Direction::E, cell(0, 0), vec![cell(6, 5), cell(5, 4)]);
    assert!(avoid_hazard_with(&mut snake, &map, true));
    assert_eq!(snake.direction(), Direction::S);
    let (mut snake, map) = line(Direction::E, cell(0, 0), vec![cell(6, 5), cell(5, 6)]);
    assert!(avoid_hazard_with(&mut snake, &map, false));
    assert_eq!(snake.direction(), Direction::N);
}

#[test]
fn avoid_hazard_ends_on_the_other_side_where_all_is_barred() {
    let walls = vec![cell(6, 5), cell(5, 4), cell(5, 6)];
    let (mut snake, map) = line(Direction::E, cell(0, 0), walls.clone());
    assert!(avoid_hazard_with(&mut snake, &map, true));
    assert_eq!(snake.direction(), Direction::S);
    let (mut snake, map) = line(Direction::E, cell(0, 0), walls);
    assert!(avoid_hazard_with(&mut snake, &map, false));
    assert_eq!(snake.direction(), Direction::N);
}

#[test]
fn avoid_hazard_by_chance_ends_on_one_of_the_two_sides() {
    let mut north = 0;
    let mut south = 0;
    for _ in 0..200 {
        let (mut snake, map) = line(Direction::E, cell(0, 0), vec![cell(6, 5)]);
        assert!(avoid_hazard(&mut snake, &map));
        match snake.direction() {
            Direction::N => north += 1,
            Direction::S => south += 1,
            other => panic!("turned {:?}", other),
        }
    }
    assert!(north > 0 && south > 0);
}

#[test]
fn occupied_neighbors_counts_walls_and_body_round_the_head() {
    let (snake, map) = line(Direction::E, cell(6, 5), vec![]);
    assert_eq!(occupied_neighbors(&snake, &map), 1);
    let (snake, map) = line(Direction::E, cell(0, 0), vec![cell(6, 4), cell(6, 6), cell(7, 5)]);
    assert_eq!(occupied_neighbors(&snake, &map), 3);
    let walls = vec![
        cell(4, 4), cell(5, 4), cell(6, 4), cell(6, 5), cell(6, 6), cell(5, 6), cell(4, 6),
    ];
    let (snake, map) = line(Direction::E, cell(0, 0), walls);
    assert_eq!(occupied_neighbors(&snake, &map), 8);
}

#[test]
fn occupied_neighbors_looks_across_the_edge() {
    let (snake, map) =
        scene((4, 4), vec![cell(0, 0)], Direction::E, cell(2, 2), vec![cell(3, 3), cell(3, 0)]);
    assert_eq!(occupied_neighbors(&snake, &map), 2);
}

#[test]
fn avoid_trapping_decides_nothing_in_the_open() {
    for left in [true, false] {
        let (mut snake, map) = line(Direction::E, cell(8, 8), vec![]);
        assert!(!avoid_trapping_with(&mut snake, &map, left));
        assert_eq!(snake.direction(), Direction::E);
    }
}

#[test]
fn avoid_trapping_decides_nothing_where_the_way_ahead_is_no_trap() {
    for left in [true, false] {
        let (mut snake, map) = line(Direction::E, cell(8, 8), vec![cell(4, 4), cell(4, 6)]);
        assert!(!avoid_trapping_with(&mut snake, &map, left));
        assert_eq!(snake.direction(), Direction::E);
    }
}

/// The snake has come into a pocket of nine cells through the only gap in
/// its wall, and its body fills the gap.
fn in_the_pocket(heading: Direction) -> (Snake, Grid) {
    let mut walls = Vec::new();
    for i in 1..6 {
        walls.push(cell(i, 5));
        walls.push(cell(1, i));
        walls.push(cell(5, i));
        if i != 3 {
            walls.push(cell(i, 1));
        }
    }
    scene((7, 7), vec![cell(3, 2), cell(3, 1), cell(3, 0)], heading, cell(0, 3), walls)
}

#[test]
fn trap_avoiding_in_a_closed_pocket_does_not_collide() {
    for left in [true, false] {
        for heading in [Direction::S, Direction::E, Direction::W] {
            let (mut snake, map) = in_the_pocket(heading);
            smart_autopilot_with(&mut snake, &map, left);
            assert!(!map.at(&snake.peek()).hazard());
            assert!(!detect_hazard(&snake, &map));
        }
    }
}

#[test]
fn trap_avoiding_in_a_closed_pocket_ends_on_the_right() {
    for left in [true, false] {
        let (mut snake, map) = in_the_pocket(Direction::S);
        assert!(avoid_trapping_with(&mut snake, &map, left));
        assert_eq!(snake.direction(), Direction::W);
    }
}

#[test]
fn trap_avoiding_stays_out_of_a_dead_end() {
    let mut walls = Vec::new();
    for x in 6..9 {
        walls.push(cell(x, 4));
        walls.push(cell(x, 6));
    }
    walls.push(cell(9, 5));
    for left in [true, false] {
        let (mut snake, map) = line(Direction::E, cell(0, 0), walls.clone());
        assert!(avoid_trapping_with(&mut snake, &map, left));
        assert_eq!(snake.direction(), Direction::N);
        assert!(!detect_hazard(&snake, &map));
    }
}

#[test]
fn trap_avoiding_falls_back_on_avoiding_the_hazard_ahead() {
    let walls = vec![cell(6, 5), cell(5, 4), cell(4, 6), cell(6, 6), cell(5, 7)];
    let (mut snake, map) = line(Direction::E, cell(0, 0), walls.clone());
    assert!(avoid_trapping_with(&mut snake, &map, true));
    assert_eq!(snake.direction(), Direction::S);
    let (mut snake, map) = line(Direction::E, cell(0, 0), walls);
    assert!(avoid_trapping_with(&mut snake, &map, false));
    assert_eq!(snake.direction(), Direction::S);
}

#[test]
fn stupid_autopilot_seeks_food_where_no_hazard_is_ahead() {
    for left in [true, false] {
        let (mut snake, map) = line(Direction::E, cell(8, 8), vec![]);
        stupid_autopilot_with(&mut snake, &map, left);
        assert_eq!(snake.direction(), Direction::S);
    }
}

#[test]
fn stupid_autopilot_avoids_the_hazard_ahead_before_it_seeks_food() {
    let (mut snake, map) = line(Direction::E, cell(8, 8), vec![cell(6, 5)]);
    stupid_autopilot_with(&mut snake, &map, true);
    assert_eq!(snake.direction(), Direction::N);
}

#[test]
fn stupid_autopilot_collides_only_where_three_ways_are_barred() {
    let all = [cell(6, 5), cell(5, 4), cell(5, 6)];
    for mask in 0..8 {
        for left in [true, false] {
            let walls: Vec<Point> =
                (0..3).filter(|i| mask & (1 << i) != 0).map(|i| all[i]).collect();
            let (mut snake, map) = line(Direction::E, cell(8, 8), walls);
            stupid_autopilot_with(&mut snake, &map, left);
            assert_eq!(detect_hazard(&snake, &map), mask == 7);
        }
    }
}

#[test]
fn smart_autopilot_seeks_food_where_nothing_is_decided() {
    for left in [true, false] {
        let (mut snake, map) = line(Direction::E, cell(8, 2), vec![]);
        smart_autopilot_with(&mut snake, &map, left);
        assert_eq!(snake.direction(), Direction::N);
    }
}

#[test]
fn smart_autopilot_collides_only_where_three_ways_are_barred() {
    let all = [cell(6, 5), cell(5, 4), cell(5, 6)];
    for mask in 0..8 {
        for left in [true, false] {
            let walls: Vec<Point> =
                (0..3).filter(|i| mask & (1 << i) != 0).map(|i| all[i]).collect();
            let (mut snake, map) = line(Direction::E, cell(8, 8), walls);
            smart_autopilot_with(&mut snake, &map, left);
            assert_eq!(detect_hazard(&snake, &map), mask == 7);
        }
    }
}
