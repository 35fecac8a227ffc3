use rsnake::grid::Grid;
use rsnake::orientation::{Direction, Point, State};
use rsnake::snake::Snake;

fn cell(x: i32, y: i32) -> Point {
    Point::new(x, y)
}

fn body_of(s: &Snake) -> Vec<Point> {
    s.get_tail().iter().copied().collect()
}

fn three(size: (u32, u32)) -> (Snake, Grid) {
    let snake = Snake::with_body(size, vec![cell(2, 2), cell(1, 2), cell(0, 2)], Direction::E)
        .unwrap();
    let mut map = Grid::empty(size);
    map.init_snake(snake.get_tail());
    (snake, map)
}

#[test]
fn new_snake_has_three_cells_and_heads_east() {
    let s = Snake::new((20, 20));
    assert_eq!(body_of(&s), vec![cell(7, 5), cell(6, 5), cell(5, 5)]);
    assert_eq!(*s.head(), cell(7, 5));
    assert_eq!(*s.end(), cell(5, 5));
    assert_eq!(s.direction(), Direction::E);
    assert_eq!(s.last_direction(), Direction::E);
    assert_eq!(s.length(), 3);
}

#[test]
fn new_snake_is_taken_round_a_small_grid() {
    let s = Snake::new((5, 5));
    assert_eq!(body_of(&s), vec![cell(2, 0), cell(1, 0), cell(0, 0)]);
    let s = Snake::new((6, 3));
    assert_eq!(body_of(&s), vec![cell(1, 2), cell(0, 2), cell(5, 2)]);
    let s = Snake::new((1, 1));
    assert_eq!(body_of(&s), vec![cell(0, 0), cell(0, 0), cell(0, 0)]);
}

#[test]
fn with_body_takes_cells_of_the_grid_only() {
    assert!(Snake::with_body((5, 5), vec![cell(4, 4)], Direction::N).is_some());
    assert!(Snake::with_body((5, 5), vec![], Direction::N).is_none());
    assert!(Snake::with_body((5, 5), vec![cell(5, 0)], Direction::N).is_none());
    assert!(Snake::with_body((5, 5), vec![cell(0, 0), cell(0, -1)], Direction::N).is_none());
    assert!(Snake::with_body((0, 5), vec![cell(0, 0)], Direction::N).is_none());
    assert!(Snake::with_body((5, u32::MAX), vec![cell(0, 0)], Direction::N).is_none());
}

#[test]
fn with_body_keeps_cells_heading_and_length() {
    let s = Snake::with_body((5, 5), vec![cell(2, 2), cell(1, 2)], Direction::S).unwrap();
    assert_eq!(body_of(&s), vec![cell(2, 2), cell(1, 2)]);
    assert_eq!(s.direction(), Direction::S);
    assert_eq!(s.last_direction(), Direction::S);
    assert_eq!(s.length(), 2);
}

#[test]
fn peek_is_one_step_ahead_and_wraps() {
    let mut s = Snake::with_body((5, 4), vec![cell(4, 0)], Direction::E).unwrap();
    assert_eq!(s.peek(), cell(0, 0));
    s.turn(Direction::N);
    assert_eq!(s.peek(), cell(4, 3));
    s.turn(Direction::W);
    assert_eq!(s.peek(), cell(3, 0));
    s.turn(Direction::S);
    assert_eq!(s.peek(), cell(4, 1));
}

#[test]
fn step_moves_the_head_to_what_peek_gave() {
    let (mut s, mut map) = three((5, 5));
    for turn in [Direction::E, Direction::E, Direction::S, Direction::E, Direction::N] {
        s.turn(turn);
        let ahead = s.peek();
        s.step(&mut map);
        assert_eq!(*s.head(), ahead);
        assert_eq!(map.normalize(&ahead), ahead);
        assert_eq!(s.last_direction(), turn);
    }
}

#[test]
fn step_keeps_the_length_and_frees_the_last_cell() {
    let (mut s, mut map) = three((5, 5));
    s.step(&mut map);
    assert_eq!(body_of(&s), vec![cell(3, 2), cell(2, 2), cell(1, 2)]);
    assert_eq!(map.at(&cell(3, 2)), State::Snake);
    assert_eq!(map.at(&cell(0, 2)), State::Empty);
    assert_eq!(map.at(&cell(1, 2)), State::Snake);
}

#[test]
fn step_after_feed_keeps_the_last_cell() {
    let (mut s, mut map) = three((5, 5));
    s.feed();
    assert_eq!(s.length(), 4);
    s.step(&mut map);
    assert_eq!(body_of(&s), vec![cell(3, 2), cell(2, 2), cell(1, 2), cell(0, 2)]);
    assert_eq!(map.at(&cell(0, 2)), State::Snake);
    s.step(&mut map);
    assert_eq!(body_of(&s), vec![cell(4, 2), cell(3, 2), cell(2, 2), cell(1, 2)]);
    assert_eq!(map.at(&cell(0, 2)), State::Empty);
}

#[test]
fn body_is_never_empty_nor_longer_than_the_target() {
    let (mut s, mut map) = three((5, 5));
    for i in 0..40 {
        if i % 7 == 0 {
            s.feed();
        }
        if i % 5 == 0 {
            s.turn_left();
        }
        s.step(&mut map);
        let len = s.get_tail().len();
        assert!(1 <= len && len <= s.length() + 1);
    }
}

#[test]
fn step_into_the_cell_that_the_tail_leaves_unmarks_it() {
    let cells = vec![cell(0, 0), cell(0, 1), cell(1, 1), cell(1, 0)];
    let mut s = Snake::with_body((4, 4), cells, Direction::E).unwrap();
    let mut map = Grid::empty((4, 4));
    map.init_snake(s.get_tail());
    s.step(&mut map);
    assert_eq!(body_of(&s), vec![cell(1, 0), cell(0, 0), cell(0, 1), cell(1, 1)]);
    assert_eq!(map.at(&cell(1, 0)), State::Empty);
}

#[test]
fn turn_sets_the_heading_whatever_it_is() {
    let mut s = Snake::new((20, 20));
    s.turn(Direction::W);
    assert_eq!(s.direction(), Direction::W);
    assert_eq!(s.last_direction(), Direction::E);
    assert_eq!(body_of(&s), vec![cell(7, 5), cell(6, 5), cell(5, 5)]);
}

#[test]
fn reverse_flags_the_opposite_of_the_last_heading_only() {
    let s = Snake::with_body((5, 5), vec![cell(2, 2)], Direction::E).unwrap();
    assert!(s.reverse(Direction::W));
    assert!(!s.reverse(Direction::E));
    assert!(!s.reverse(Direction::N));
    assert!(!s.reverse(Direction::S));
    let s = Snake::with_body((5, 5), vec![cell(2, 2)], Direction::N).unwrap();
    assert!(s.reverse(Direction::S));
    assert!(!s.reverse(Direction::N));
    let s = Snake::with_body((5, 5), vec![cell(2, 2)], Direction::S).unwrap();
    assert!(s.reverse(Direction::N));
    let s = Snake::with_body((5, 5), vec![cell(2, 2)], Direction::W).unwrap();
    assert!(s.reverse(Direction::E));
}

#[test]
fn reverse_goes_by_the_last_step_not_by_the_heading() {
    let (mut s, mut map) = three((5, 5));
    s.turn(Direction::N);
    assert!(s.reverse(Direction::W));
    assert!(!s.reverse(Direction::S));
    s.step(&mut map);
    assert!(s.reverse(Direction::S));
    assert!(!s.reverse(Direction::W));
}

#[test]
fn left_and_right_are_quarter_turns() {
    let mut s = Snake::with_body((5, 5), vec![cell(2, 2)], Direction::N).unwrap();
    assert_eq!(s.left(), Direction::W);
    assert_eq!(s.right(), Direction::E);
    s.turn(Direction::W);
    assert_eq!(s.left(), Direction::S);
    assert_eq!(s.right(), Direction::N);
    s.turn(Direction::S);
    assert_eq!(s.left(), Direction::E);
    assert_eq!(s.right(), Direction::W);
    s.turn(Direction::E);
    assert_eq!(s.left(), Direction::N);
    assert_eq!(s.right(), Direction::S);
}

#[test]
fn four_turns_one_way_come_back_and_left_undoes_right() {
    let mut s = Snake::with_body((5, 5), vec![cell(2, 2)], Direction::N).unwrap();
    for want in [Direction::W, Direction::S, Direction::E, Direction::N] {
        s.turn_left();
        assert_eq!(s.direction(), want);
    }
    for want in [Direction::E, Direction::S, Direction::W, Direction::N] {
        s.turn_right();
        assert_eq!(s.direction(), want);
    }
    s.turn_left();
    s.turn_right();
    assert_eq!(s.direction(), Direction::N);
}

#[test]
fn feed_raises_the_target_length_by_one() {
    let mut s = Snake::new((20, 20));
    s.feed();
    s.feed();
    assert_eq!(s.length(), 5);
    assert_eq!(s.get_tail().len(), 3);
}
