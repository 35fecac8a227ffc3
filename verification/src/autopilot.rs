//! The autopilot: three policies that pick the snake's heading, each built on
//! the one before it. Seeking food steers towards the food. Avoiding hazards
//! turns away from a wall or the body straight ahead. Avoiding traps also
//! turns away from a cell from which the end of the body cannot be reached.

use crate::chance::draw_range;
use crate::grid::Grid;
use crate::orientation::{Direction, Point, Reachable};
use crate::search::{best_first_search, reaches_target};
use crate::snake::Snake;
use rand::thread_rng;
use vstd::prelude::*;

verus! {

/// Who steers: one of the three policies, or the player.
#[derive(Hash, Debug, Clone, Copy, PartialEq, Eq, Structural)]
pub enum Autopilot {
    /// Avoids hazards, and seeks food where there is none ahead.
    Stupid,
    /// Avoids traps and hazards, and seeks food where there is neither.
    Smart,
    /// Seeks food only.
    Boring,
    /// The player steers.
    Manual,
}

/// Whether a hazard lies one step from the head in heading `d`.
pub open spec fn hazard_toward(snake: Snake, map: Grid, d: Direction) -> bool {
    map.state_at(snake.next_toward(d)).is_hazard()
}

/// The way from `from` to `to` along an axis of `dim` cells, with its sign:
/// the difference, taken the other way round the grid where it is longer than
/// half the axis.
pub open spec fn signed_offset(from: int, to: int, dim: int) -> int {
    let d = to - from;
    if d > 0 && 2 * d > dim {
        d - dim
    } else if d < 0 && 2 * (-d) > dim {
        d + dim
    } else {
        d
    }
}

/// The heading that seeking food asks for when the food lies `(dx, dy)` from
/// the head. Rows come before columns. A snake that moves along the axis to
/// be corrected keeps its heading: it neither needs the turn nor may it turn
/// round.
pub open spec fn steer(heading: Direction, dx: int, dy: int) -> Direction {
    let vertical = heading == Direction::N || heading == Direction::S;
    if dy > 0 {
        if vertical {
            heading
        } else {
            Direction::S
        }
    } else if dy < 0 {
        if vertical {
            heading
        } else {
            Direction::N
        }
    } else if dx > 0 {
        if vertical {
            Direction::E
        } else {
            heading
        }
    } else if dx < 0 {
        if vertical {
            Direction::W
        } else {
            heading
        }
    } else {
        heading
    }
}

/// The heading that seeking food asks for, before it is checked for a hazard.
pub open spec fn wanted_heading(snake: Snake, map: Grid) -> Direction {
    steer(
        snake.heading(),
        signed_offset(snake@[0].x as int, map.food_spec().x as int, map.width()),
        signed_offset(snake@[0].y as int, map.food_spec().y as int, map.height()),
    )
}

/// The heading that seeking food ends with: the one it asks for, unless a
/// hazard lies that way; then the snake stays its course.
pub open spec fn food_heading(snake: Snake, map: Grid) -> Direction {
    let want = wanted_heading(snake, map);
    if hazard_toward(snake, map, want) {
        snake.heading()
    } else {
        want
    }
}

/// The heading that avoiding hazards ends with. With no hazard ahead the
/// snake stays its course. Else it turns to the side that chance names, and
/// to the other side if a hazard lies there too.
pub open spec fn dodge_heading(snake: Snake, map: Grid, left: bool) -> Direction {
    let ahead = snake.heading();
    let first = if left {
        ahead.left_spec()
    } else {
        ahead.right_spec()
    };
    if !hazard_toward(snake, map, ahead) {
        ahead
    } else if hazard_toward(snake, map, first) {
        first.right_spec().right_spec()
    } else {
        first
    }
}

/// How many of `cells` hold a hazard.
pub open spec fn count_hazards(map: Grid, cells: Seq<Point>) -> nat
    decreases cells.len(),
{
    if cells.len() == 0 {
        0
    } else {
        count_hazards(map, cells.drop_last()) + if map.at_spec(cells.last()).is_hazard() {
            1nat
        } else {
            0nat
        }
    }
}

/// Whether heading `d` leads into a hazard or into a cell from which no walk
/// leads to a cell next to the end of the body.
pub open spec fn trapped_toward(snake: Snake, map: Grid, d: Direction) -> bool {
    hazard_toward(snake, map, d) || !reaches_target(map, snake.next_toward(d), snake@.last())
}

/// The heading that the search for a way out ends with: straight on if that
/// is no trap, else left if that is none, else right.
pub open spec fn escape_heading(snake: Snake, map: Grid) -> Direction {
    let ahead = snake.heading();
    if !trapped_toward(snake, map, ahead) {
        ahead
    } else if !trapped_toward(snake, map, ahead.left_spec()) {
        ahead.left_spec()
    } else {
        ahead.left_spec().left_spec().left_spec()
    }
}

/// Whether avoiding traps takes the decision: more than one of the eight
/// cells round the head holds a hazard, and straight on is a trap.
pub open spec fn trap_decides(snake: Snake, map: Grid) -> bool {
    count_hazards(map, snake@[0].diagonal_spec()) > 1 && trapped_toward(
        snake,
        map,
        snake.heading(),
    )
}

/// The heading that avoiding traps ends with. Where it does not decide, the
/// snake stays its course. Else it takes the way out that the search found,
/// unless a hazard lies that way: then it falls back on avoiding hazards.
pub open spec fn trap_heading(snake: Snake, map: Grid, left: bool) -> Direction {
    if !trap_decides(snake, map) {
        snake.heading()
    } else if hazard_toward(snake, map, escape_heading(snake, map)) {
        dodge_heading(snake, map, left)
    } else {
        escape_heading(snake, map)
    }
}

/// The heading that the policy `Stupid` ends with.
pub open spec fn stupid_heading(snake: Snake, map: Grid, left: bool) -> Direction {
    if hazard_toward(snake, map, snake.heading()) {
        dodge_heading(snake, map, left)
    } else {
        food_heading(snake, map)
    }
}

/// The heading that the policy `Smart` ends with.
pub open spec fn smart_heading(snake: Snake, map: Grid, left: bool) -> Direction {
    if trap_decides(snake, map) {
        trap_heading(snake, map, left)
    } else {
        food_heading(snake, map)
    }
}

/// Seeking food never turns the snake round, and turns it into a hazard
/// never: it steers into one only by staying its course.
pub proof fn lemma_food_heading_is_safe(snake: Snake, map: Grid)
    ensures
        food_heading(snake, map) != snake.heading().opposite_spec(),
        hazard_toward(snake, map, food_heading(snake, map)) ==> food_heading(snake, map)
            == snake.heading(),
{
}

/// The policy `Stupid` steers into a hazard only where a hazard lies straight
/// on, to the left and to the right.
pub proof fn lemma_stupid_avoids_hazard(snake: Snake, map: Grid, left: bool)
    requires
        hazard_toward(snake, map, stupid_heading(snake, map, left)),
    ensures
        hazard_toward(snake, map, snake.heading()),
        hazard_toward(snake, map, snake.heading().left_spec()),
        hazard_toward(snake, map, snake.heading().right_spec()),
{
}

/// The policy `Smart` steers into a hazard only where a hazard lies straight
/// on, to the left and to the right, if it decides at all: that is, if more
/// than one of the eight cells round the head holds a hazard, or none lies
/// straight on.
pub proof fn lemma_smart_avoids_hazard(snake: Snake, map: Grid, left: bool)
    requires
        count_hazards(map, snake@[0].diagonal_spec()) > 1 || !hazard_toward(
            snake,
            map,
            snake.heading(),
        ),
        hazard_toward(snake, map, smart_heading(snake, map, left)),
    ensures
        hazard_toward(snake, map, snake.heading()),
        hazard_toward(snake, map, snake.heading().left_spec()),
        hazard_toward(snake, map, snake.heading().right_spec()),
{
}

/// Whether `after` is `before` turned to heading `d`, and nothing else.
pub open spec fn turned(after: Snake, before: Snake, d: Direction) -> bool {
    &&& after.heading() == d
    &&& after.last_heading() == before.last_heading()
    &&& after.same_body(&before)
}

/// Whether the cell that the next step moves the head to holds a hazard.
pub fn detect_hazard(snake: &Snake, map: &Grid) -> (b: bool)
    requires
        snake.wf(),
        map.wf(),
        snake.on(map),
    ensures
        b == hazard_toward(*snake, *map, snake.heading()),
{
    map.at(&snake.peek()).hazard()
}

fn signed_gap(from: i32, to: i32, dim: u32) -> (d: i64)
    ensures
        d == signed_offset(from as int, to as int, dim as int),
{
    let d: i64 = to as i64 - from as i64;
    let w: i64 = dim as i64;
    if d > 0 && 2 * d > w {
        d - w
    } else if d < 0 && 2 * (-d) > w {
        d + w
    } else {
        d
    }
}

/// Seeks food: steers towards the food by the shorter way round the grid,
/// rows before columns, and stays the course rather than steer into a hazard.
pub fn find_food(snake: &mut Snake, map: &Grid)
    requires
        old(snake).wf(),
        map.wf(),
        old(snake).on(map),
    ensures
        final(snake).wf(),
        turned(*final(snake), *old(snake), food_heading(*old(snake), *map)),
{
    let course = snake.direction();
    let size = map.size();
    let dx = signed_gap(snake.head().x, map.get_food().x, size.0);
    let dy = signed_gap(snake.head().y, map.get_food().y, size.1);
    let vertical = course == Direction::N || course == Direction::S;
    if dy > 0 {
        if !vertical {
            snake.turn(Direction::S);
        }
    } else if dy < 0 {
        if !vertical {
            snake.turn(Direction::N);
        }
    } else if dx > 0 {
        if vertical {
            snake.turn(Direction::E);
        }
    } else if dx < 0 {
        if vertical {
            snake.turn(Direction::W);
        }
    }
    if detect_hazard(snake, map) {
        snake.turn(course)
    }
}

/// Avoids a hazard straight ahead, with the side to try first given: turns
/// to that side, and to the other one if a hazard lies there too. Returns
/// whether there was a hazard ahead.
pub fn avoid_hazard_with(snake: &mut Snake, map: &Grid, left: bool) -> (decision: bool)
    requires
        old(snake).wf(),
        map.wf(),
        old(snake).on(map),
    ensures
        final(snake).wf(),
        decision == hazard_toward(*old(snake), *map, old(snake).heading()),
        turned(*final(snake), *old(snake), dodge_heading(*old(snake), *map, left)),
{
    let mut decision = false;
    if detect_hazard(snake, map) {
        decision = true;
        if left {
            snake.turn_left();
        } else {
            snake.turn_right();
        }
        if detect_hazard(snake, map) {
            snake.turn_right();
            snake.turn_right();
        }
    }
    decision
}

/// Avoids a hazard straight ahead, and lets chance name the side to try
/// first. Returns whether there was a hazard ahead.
pub fn avoid_hazard(snake: &mut Snake, map: &Grid) -> (decision: bool)
    requires
        old(snake).wf(),
        map.wf(),
        old(snake).on(map),
    ensures
        final(snake).wf(),
        decision == hazard_toward(*old(snake), *map, old(snake).heading()),
        exists|left: bool|
            turned(*final(snake), *old(snake), #[trigger] dodge_heading(*old(snake), *map, left)),
{
    let left = coin();
    avoid_hazard_with(snake, map, left)
}

/// Heads or tails, each as likely as the other.
pub(crate) fn coin() -> bool {
    let mut rng = thread_rng();
    draw_range(&mut rng, 0, 2) == 1
}

/// How many of the eight cells round the head hold a hazard.
pub fn occupied_neighbors(snake: &Snake, map: &Grid) -> (n: usize)
    requires
        snake.wf(),
        map.wf(),
        snake.on(map),
    ensures
        n == count_hazards(*map, snake@[0].diagonal_spec()),
{
    let p = snake.head();
    let ghost round = p.diagonal_spec();
    let mut it = p.neighbors2();
    let mut n: usize = 0;
    let ghost mut tried: int = 0;
    loop
        invariant_except_break
            it.remaining() == round.subrange(tried, 8),
        invariant
            0 <= tried <= 8,
            round.len() == 8,
            map.wf(),
            it.wf(),
            n == count_hazards(*map, round.subrange(0, tried)),
            n <= tried,
        ensures
            tried == 8,
        decreases it.remaining().len(),
    {
        let c = match it.next() {
            None => {
                break ;
            },
            Some(c) => c,
        };
        assert(c == round[tried]);
        proof {
            assert(round.subrange(0, tried + 1).drop_last() =~= round.subrange(0, tried));
            assert(round.subrange(tried, 8).drop_first() =~= round.subrange(tried + 1, 8));
        }
        if map.at(&c).hazard() {
            n = n + 1;
        }
        proof {
            tried = tried + 1;
        }
    }
    assert(round.subrange(0, 8) =~= round);
    n
}

/// Whether heading on leads into a hazard or into a cell from which the
/// end of the body cannot be reached.
fn detect_trap(snake: &Snake, map: &Grid) -> (b: bool)
    requires
        snake.wf(),
        map.wf(),
        snake.on(map),
    ensures
        b == trapped_toward(*snake, *map, snake.heading()),
{
    detect_hazard(snake, map) || best_first_search(&snake.peek(), snake.end(), map)
        == Reachable::No
}

/// Avoids traps, with the side given that avoiding hazards tries first.
/// Nothing is done where at most one of the eight cells round the head holds
/// a hazard. Else the snake looks for a heading that is no trap: straight on,
/// then left, then right. If a hazard lies in the heading found, the snake
/// takes its first heading again and avoids the hazard ahead as best it can.
/// Returns whether anything was decided.
pub fn avoid_trapping_with(snake: &mut Snake, map: &Grid, left: bool) -> (decision: bool)
    requires
        old(snake).wf(),
        map.wf(),
        old(snake).on(map),
    ensures
        final(snake).wf(),
        decision == trap_decides(*old(snake), *map),
        turned(*final(snake), *old(snake), trap_heading(*old(snake), *map, left)),
{
    let mut decision = false;
    if occupied_neighbors(snake, map) <= 1 {
        return decision;
    }
    let course = snake.direction();
    if detect_trap(snake, map) {
        snake.turn_left();
        if detect_trap(snake, map) {
            snake.turn_left();
            snake.turn_left();
        }
        decision = true;
    }
    if detect_hazard(snake, map) {
        snake.turn(course);
        avoid_hazard_with(snake, map, left);
        decision = true;
    }
    decision
}

/// The policy `Stupid`, with the side given that it tries first: avoids a
/// hazard ahead, and seeks food where there is none.
pub fn stupid_autopilot_with(snake: &mut Snake, map: &Grid, left: bool)
    requires
        old(snake).wf(),
        map.wf(),
        old(snake).on(map),
    ensures
        final(snake).wf(),
        turned(*final(snake), *old(snake), stupid_heading(*old(snake), *map, left)),
{
    if !avoid_hazard_with(snake, map, left) {
        find_food(snake, map)
    }
}

/// The policy `Smart`, with the side given that it tries first: avoids traps,
/// and seeks food where that decides nothing.
pub fn smart_autopilot_with(snake: &mut Snake, map: &Grid, left: bool)
    requires
        old(snake).wf(),
        map.wf(),
        old(snake).on(map),
    ensures
        final(snake).wf(),
        turned(*final(snake), *old(snake), smart_heading(*old(snake), *map, left)),
{
    if !avoid_trapping_with(snake, map, left) {
        find_food(snake, map);
    }
}

} // verus!
