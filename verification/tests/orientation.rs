use rsnake::orientation::{Direction, Neighbor, Point, State};

fn drain(mut n: Neighbor) -> Vec<Point> {
    let mut out = Vec::new();
    while let Some(p) = n.next() {
        out.push(p);
    }
    out
}

#[test]
fn point_new_keeps_both_coordinates() {
    let p = Point::new(-3, 9);
    assert_eq!(p.x, -3);
    assert_eq!(p.y, 9);
}

#[test]
fn point_plus_heading_is_one_step_away() {
    let p = Point::new(4, 7);
    assert_eq!(p + Direction::N, Point::new(4, 6));
    assert_eq!(p + Direction::S, Point::new(4, 8));
    assert_eq!(p + Direction::E, Point::new(5, 7));
    assert_eq!(p + Direction::W, Point::new(3, 7));
}

#[test]
fn point_plus_point_adds_each_coordinate() {
    assert_eq!(Point::new(4, 7) + Point::new(-1, 2), Point::new(3, 9));
    assert_eq!(Point::new(0, 0) + Point::new(0, 0), Point::new(0, 0));
}

#[test]
fn direct_neighbors_come_west_north_east_south() {
    let got = drain(Point::new(5, 5).neighbors());
    assert_eq!(
        got,
        vec![Point::new(4, 5), Point::new(5, 4), Point::new(6, 5), Point::new(5, 6)]
    );
}

#[test]
fn diagonal_neighbors_are_the_eight_cells_around() {
    let got = drain(Point::new(0, 0).neighbors2());
    assert_eq!(
        got,
        vec![
            Point::new(-1, 1),
            Point::new(-1, 0),
            Point::new(-1, -1),
            Point::new(0, -1),
            Point::new(1, -1),
            Point::new(1, 0),
            Point::new(1, 1),
            Point::new(0, 1),
        ]
    );
}

#[test]
fn direct_and_diagonal_build_what_neighbors_give() {
    let p = Point::new(2, 3);
    assert_eq!(drain(Neighbor::direct(p)), drain(p.neighbors()));
    assert_eq!(drain(Neighbor::diagonal(p)), drain(p.neighbors2()));
}

#[test]
fn neighbor_gives_none_for_good_once_empty() {
    let mut n = Point::new(1, 1).neighbors();
    for _ in 0..4 {
        assert!(n.next().is_some());
    }
    assert_eq!(n.next(), None);
    assert_eq!(n.next(), None);
}

#[test]
fn walls_and_body_are_hazards_food_and_empty_are_not() {
    assert!(State::Wall.hazard());
    assert!(State::Snake.hazard());
    assert!(!State::Food.hazard());
    assert!(!State::Empty.hazard());
}
