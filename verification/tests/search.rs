use rsnake::frontier::{Frontier, Thingy};
use rsnake::grid::Grid;
use rsnake::orientation::{Point, Reachable, State};
use rsnake::search::best_first_search;

fn cell(x: i32, y: i32) -> Point {
    Point::new(x, y)
}

/// A grid of 7 by 7 with a wall round the nine cells from (2, 2) to (4, 4).
fn pocket() -> Grid {
    let mut map = Grid::empty((7, 7));
    for i in 1..6 {
        map.add_wall(cell(i, 1));
        map.add_wall(cell(i, 5));
        map.add_wall(cell(1, i));
        map.add_wall(cell(5, i));
    }
    map
}

#[test]
fn thingy_holds_the_distance_negated() {
    let map = Grid::empty((10, 10));
    let t = Thingy::new(&cell(1, 1), &cell(4, 3), &map);
    assert_eq!(t.distance, -5);
    assert_eq!(t.pos, cell(1, 1));
    let t = Thingy::new(&cell(9, 9), &cell(0, 0), &map);
    assert_eq!(t.distance, -2);
}

#[test]
fn frontier_gives_the_nearest_first() {
    let map = Grid::empty((20, 20));
    let target = cell(0, 0);
    let mut q = Frontier::new();
    assert_eq!(q.pop(), None);
    for p in [cell(3, 3), cell(1, 0), cell(5, 5), cell(0, 2), cell(19, 19)] {
        q.push(Thingy::new(&p, &target, &map));
    }
    let mut got = Vec::new();
    while let Some(t) = q.pop() {
        got.push(-t.distance);
    }
    assert_eq!(got, vec![1, 2, 2, 6, 10]);
    assert_eq!(q.pop(), None);
}

#[test]
fn frontier_keeps_equal_cells_apart() {
    let map = Grid::empty((20, 20));
    let mut q = Frontier::new();
    let t = Thingy::new(&cell(2, 2), &cell(0, 0), &map);
    q.push(t);
    q.push(t);
    assert_eq!(q.pop(), Some(t));
    assert_eq!(q.pop(), Some(t));
    assert_eq!(q.pop(), None);
}

#[test]
fn search_reaches_across_an_empty_grid() {
    let map = Grid::empty((9, 9));
    assert_eq!(best_first_search(&cell(0, 0), &cell(4, 4), &map), Reachable::Yes);
    assert_eq!(best_first_search(&cell(8, 8), &cell(0, 0), &map), Reachable::Yes);
}

#[test]
fn search_reaches_a_target_next_to_the_start() {
    let mut map = Grid::empty((5, 5));
    map.add_wall(cell(1, 0));
    map.add_wall(cell(0, 1));
    map.add_wall(cell(4, 0));
    map.add_wall(cell(0, 4));
    map.occupy(cell(0, 0));
    assert_eq!(best_first_search(&cell(0, 0), &cell(1, 0), &map), Reachable::Yes);
    assert_eq!(best_first_search(&cell(0, 0), &cell(0, 4), &map), Reachable::Yes);
}

#[test]
fn search_reaches_a_target_that_is_a_hazard_itself() {
    let mut map = Grid::empty((6, 6));
    map.occupy(cell(3, 3));
    assert_eq!(best_first_search(&cell(0, 0), &cell(3, 3), &map), Reachable::Yes);
}

#[test]
fn search_from_the_target_needs_a_free_neighbor() {
    let mut map = Grid::empty((5, 5));
    assert_eq!(best_first_search(&cell(2, 2), &cell(2, 2), &map), Reachable::Yes);
    map.add_wall(cell(1, 2));
    map.add_wall(cell(3, 2));
    map.add_wall(cell(2, 1));
    map.add_wall(cell(2, 3));
    assert_eq!(best_first_search(&cell(2, 2), &cell(2, 2), &map), Reachable::No);
}

#[test]
fn search_does_not_leave_a_walled_pocket() {
    let map = pocket();
    assert_eq!(best_first_search(&cell(3, 3), &cell(0, 0), &map), Reachable::No);
    assert_eq!(best_first_search(&cell(0, 0), &cell(3, 3), &map), Reachable::No);
    assert_eq!(best_first_search(&cell(2, 2), &cell(4, 4), &map), Reachable::Yes);
    assert_eq!(best_first_search(&cell(0, 0), &cell(6, 6), &map), Reachable::Yes);
}

#[test]
fn search_stops_at_the_wall_but_sees_a_target_behind_it() {
    let map = pocket();
    assert_eq!(best_first_search(&cell(3, 3), &cell(3, 1), &map), Reachable::Yes);
    assert_eq!(best_first_search(&cell(3, 3), &cell(3, 0), &map), Reachable::No);
}

#[test]
fn search_goes_through_a_gap() {
    let mut map = pocket();
    map.free(cell(3, 1));
    assert_eq!(best_first_search(&cell(3, 3), &cell(0, 0), &map), Reachable::Yes);
    map.occupy(cell(3, 1));
    assert_eq!(best_first_search(&cell(3, 3), &cell(0, 0), &map), Reachable::No);
}

#[test]
fn search_goes_round_the_edge_of_the_grid() {
    let mut map = Grid::empty((6, 3));
    for y in 0..3 {
        map.add_wall(cell(2, y));
    }
    assert_eq!(best_first_search(&cell(1, 1), &cell(4, 1), &map), Reachable::Yes);
    for y in 0..3 {
        map.add_wall(cell(5, y));
    }
    assert_eq!(best_first_search(&cell(1, 1), &cell(4, 1), &map), Reachable::No);
    assert_eq!(best_first_search(&cell(1, 1), &cell(5, 1), &map), Reachable::Yes);
}

#[test]
fn search_walks_over_food() {
    let mut map = Grid::empty((5, 1));
    assert!(map.put_food(cell(2, 0)));
    map.add_wall(cell(4, 0));
    assert_eq!(map.at(&cell(2, 0)), State::Food);
    assert_eq!(best_first_search(&cell(0, 0), &cell(3, 0), &map), Reachable::Yes);
}

#[test]
fn search_wraps_its_start_and_its_target() {
    let map = pocket();
    assert_eq!(best_first_search(&cell(10, -4), &cell(-3, 11), &map), Reachable::Yes);
    assert_eq!(best_first_search(&cell(10, -4), &cell(7, 7), &map), Reachable::No);
}

#[test]
fn search_finds_the_target_from_every_cell_next_to_its_empty_region() {
    let map = pocket();
    let target = cell(4, 4);
    for x in 2..5 {
        for y in 2..5 {
            assert_eq!(best_first_search(&cell(x, y), &target, &map), Reachable::Yes);
        }
    }
    for (x, y) in [(2, 1), (3, 1), (4, 1), (1, 2), (5, 3), (3, 5)] {
        assert_eq!(map.at(&cell(x, y)), State::Wall);
        assert_eq!(best_first_search(&cell(x, y), &target, &map), Reachable::Yes);
    }
    for (x, y) in [(1, 1), (5, 5), (0, 3), (3, 6)] {
        assert_eq!(best_first_search(&cell(x, y), &target, &map), Reachable::No);
    }
}

#[test]
fn search_on_a_grid_of_one_cell_finds_nothing() {
    let map = Grid::empty((1, 1));
    assert_eq!(best_first_search(&cell(0, 0), &cell(0, 0), &map), Reachable::No);
}

#[test]
fn frontier_sorts_many_cells_by_distance() {
    let map = Grid::empty((1000, 1000));
    let target = cell(0, 0);
    let mut q = Frontier::new();
    let mut want = Vec::new();
    let mut x: i64 = 12345;
    for _ in 0..500 {
        x = (x * 1103515245 + 12345) % 2147483648;
        let px = (x % 1000) as i32;
        x = (x * 1103515245 + 12345) % 2147483648;
        let py = (x % 1000) as i32;
        let t = Thingy::new(&cell(px, py), &target, &map);
        assert_eq!(-t.distance, map.manhattan(&cell(px, py), &target));
        want.push(-t.distance);
        q.push(t);
    }
    want.sort();
    let mut got = Vec::new();
    while let Some(t) = q.pop() {
        got.push(-t.distance);
    }
    assert_eq!(got, want);
}

#[test]
fn frontier_takes_pushes_between_pops() {
    let map = Grid::empty((100, 100));
    let target = cell(0, 0);
    let mut q = Frontier::new();
    q.push(Thingy::new(&cell(5, 0), &target, &map));
    q.push(Thingy::new(&cell(9, 0), &target, &map));
    assert_eq!(q.pop().map(|t| t.pos), Some(cell(5, 0)));
    q.push(Thingy::new(&cell(2, 0), &target, &map));
    q.push(Thingy::new(&cell(20, 0), &target, &map));
    assert_eq!(q.pop().map(|t| t.pos), Some(cell(2, 0)));
    assert_eq!(q.pop().map(|t| t.pos), Some(cell(9, 0)));
    assert_eq!(q.pop().map(|t| t.pos), Some(cell(20, 0)));
    assert_eq!(q.pop(), None);
}

#[test]
fn search_crosses_a_large_grid_with_a_winding_way() {
    let mut map = Grid::empty((60, 60));
    for row in (2..58).step_by(4) {
        for x in 0..59 {
            map.add_wall(cell(x, row));
        }
        for x in 1..60 {
            map.add_wall(cell(x, row + 2));
        }
    }
    assert_eq!(best_first_search(&cell(0, 0), &cell(30, 57), &map), Reachable::Yes);
    for x in 0..60 {
        map.add_wall(cell(x, 30));
        map.add_wall(cell(x, 59));
    }
    assert_eq!(best_first_search(&cell(0, 0), &cell(30, 57), &map), Reachable::No);
}
