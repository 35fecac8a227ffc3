//! The snake: its body on the grid, its heading and its target length.

use crate::grid::{held, marked, wrap, wrap_coordinate, Grid};
use crate::orientation::{Direction, Point, State};
use std::collections::VecDeque;
use vstd::prelude::*;

verus! {

/// The snake. Its body is a row of cells, head first; it moves one cell per
/// step in its heading and grows by keeping its last cell.
pub struct Snake {
    tail: VecDeque<Point>,
    direction: Direction,
    last_direction: Direction,
    length: usize,
    size: (u32, u32),
}

impl View for Snake {
    type V = Seq<Point>;

    /// The cells of the body, head first.
    closed spec fn view(&self) -> Seq<Point> {
        self.tail@
    }
}

/// Whether `cells` can be the body of a snake on a grid of extent `size`:
/// the extent is one of a grid, there is at least one cell, and each cell is
/// one of the grid.
pub open spec fn fits(size: (u32, u32), cells: Seq<Point>) -> bool {
    &&& 1 <= size.0 <= i32::MAX
    &&& 1 <= size.1 <= i32::MAX
    &&& cells.len() >= 1
    &&& forall|i: int|
        0 <= i < cells.len() ==> 0 <= (#[trigger] cells[i]).x < size.0 && 0 <= cells[i].y < size.1
}

/// The body that a new snake has on a grid of `w` columns and `h` rows: the
/// cells (7, 5), (6, 5) and (5, 5), taken around the grid where it is smaller.
pub open spec fn initial_body(w: int, h: int) -> Seq<Point> {
    seq![
        Point { x: (7int % w) as i32, y: (5int % h) as i32 },
        Point { x: (6int % w) as i32, y: (5int % h) as i32 },
        Point { x: (5int % w) as i32, y: (5int % h) as i32 },
    ]
}

/// The body after a step that moves the head to `head`: the new head in
/// front, and the last cell gone where that makes the body longer than
/// `target`.
pub open spec fn grown(body: Seq<Point>, head: Point, target: nat) -> Seq<Point> {
    let longer = seq![head] + body;
    if longer.len() > target {
        longer.drop_last()
    } else {
        longer
    }
}

/// What the grid holds after a step that moves the head to `head` when it
/// held `cells` before: the new head is marked, then the mark of the last cell
/// of the body is taken off where the body gives that cell up.
pub open spec fn grown_cells(
    cells: Map<Point, State>,
    body: Seq<Point>,
    head: Point,
    target: nat,
) -> Map<Point, State> {
    let headed = cells.insert(head, State::Snake);
    if body.len() + 1 > target {
        headed.remove(body.last())
    } else {
        headed
    }
}

impl Snake {
    /// The heading that the next step takes.
    pub closed spec fn heading(&self) -> Direction {
        self.direction
    }

    /// The heading that the last step took.
    pub closed spec fn last_heading(&self) -> Direction {
        self.last_direction
    }

    /// The length that the body grows to.
    pub closed spec fn target_len(&self) -> nat {
        self.length as nat
    }

    /// The number of columns of the grid that the snake lives on.
    pub closed spec fn width(&self) -> int {
        self.size.0 as int
    }

    /// The number of rows of the grid that the snake lives on.
    pub closed spec fn height(&self) -> int {
        self.size.1 as int
    }

    /// The snake's invariant: the body has at least one cell and no more than
    /// the target length, and each of its cells is a cell of the grid.
    pub open spec fn wf(&self) -> bool {
        &&& 1 <= self.width() <= i32::MAX
        &&& 1 <= self.height() <= i32::MAX
        &&& 1 <= self@.len() <= self.target_len()
        &&& forall|i: int|
            0 <= i < self@.len() ==> 0 <= (#[trigger] self@[i]).x < self.width() && 0
                <= self@[i].y < self.height()
    }

    /// Whether the snake lives on a grid of the extent of `map`.
    pub open spec fn on(&self, map: &Grid) -> bool {
        self.width() == map.width() && self.height() == map.height()
    }

    /// Whether `other` has the body, the target length and the grid of this snake.
    pub open spec fn same_body(&self, other: &Snake) -> bool {
        &&& self@ == other@
        &&& self.target_len() == other.target_len()
        &&& self.width() == other.width()
        &&& self.height() == other.height()
    }

    /// The cell one step from the head in heading `d`, across the edge where
    /// the head lies on it.
    pub open spec fn next_toward(&self, d: Direction) -> Point {
        Point {
            x: wrap(self@[0].x + d.dx(), self.width()) as i32,
            y: wrap(self@[0].y + d.dy(), self.height()) as i32,
        }
    }

    /// Whether a turn to `dir` would turn the snake round on the spot: `dir` is
    /// the heading opposite to the one that the last step took.
    pub open spec fn reverse_spec(&self, dir: Direction) -> bool {
        self.last_heading() == dir.opposite_spec()
    }

    /// The cell that the next step moves the head to.
    pub open spec fn peek_spec(&self) -> Point {
        self.next_toward(self.heading())
    }

    /// The body after a step: the new head in front, and the last cell gone
    /// where that makes the body longer than the target length.
    pub open spec fn stepped_body(&self) -> Seq<Point> {
        grown(self@, self.peek_spec(), self.target_len())
    }

    /// What the grid holds after a step when it held `cells` before: the new
    /// head is marked, then the mark of the last cell is taken off where the
    /// body gives that cell up.
    pub open spec fn stepped_cells(&self, cells: Map<Point, State>) -> Map<Point, State> {
        grown_cells(cells, self@, self.peek_spec(), self.target_len())
    }

    /// A snake of three cells that heads east.
    pub fn new(size: (u32, u32)) -> (s: Snake)
        requires
            1 <= size.0 <= i32::MAX,
            1 <= size.1 <= i32::MAX,
        ensures
            s.wf(),
            s.width() == size.0,
            s.height() == size.1,
            s@ == initial_body(size.0 as int, size.1 as int),
            s.target_len() == 3,
            s.heading() == Direction::E,
            s.last_heading() == Direction::E,
    {
        let y: i32 = (5 % size.1) as i32;
        let mut init: VecDeque<Point> = VecDeque::new();
        init.push_back(Point::new((7 % size.0) as i32, y));
        init.push_back(Point::new((6 % size.0) as i32, y));
        init.push_back(Point::new((5 % size.0) as i32, y));
        let length = init.len();
        let s = Snake {
            tail: init,
            direction: Direction::E,
            last_direction: Direction::E,
            length,
            size,
        };
        assert(s@ =~= initial_body(size.0 as int, size.1 as int));
        s
    }

    /// A snake with the body `cells`, head first, that heads in `direction`
    /// and does not grow; `None` where `cells` cannot be a body on a grid of
    /// extent `size`.
    pub fn with_body(size: (u32, u32), cells: Vec<Point>, direction: Direction) -> (r: Option<
        Snake,
    >)
        ensures
            r.is_some() == fits(size, cells@),
            r matches Some(s) ==> {
                &&& s.wf()
                &&& s.width() == size.0
                &&& s.height() == size.1
                &&& s@ == cells@
                &&& s.target_len() == cells@.len()
                &&& s.heading() == direction
                &&& s.last_heading() == direction
            },
    {
        if size.0 < 1 || size.0 > i32::MAX as u32 || size.1 < 1 || size.1 > i32::MAX as u32
            || cells.len() < 1 {
            return None;
        }
        let mut tail: VecDeque<Point> = VecDeque::new();
        let mut i: usize = 0;
        while i < cells.len()
            invariant
                i <= cells.len(),
                1 <= size.0 <= i32::MAX,
                1 <= size.1 <= i32::MAX,
                tail@ == cells@.subrange(0, i as int),
                fits(size, tail@) || i == 0,
            decreases cells.len() - i,
        {
            let c = cells[i];
            if c.x < 0 || c.x as i64 >= size.0 as i64 || c.y < 0 || c.y as i64 >= size.1 as i64 {
                return None;
            }
            tail.push_back(c);
            assert(tail@ =~= cells@.subrange(0, i + 1));
            i = i + 1;
        }
        assert(tail@ =~= cells@);
        let length = tail.len();
        Some(Snake { tail, direction, last_direction: direction, length, size })
    }

    /// The head.
    pub fn head(&self) -> (p: &Point)
        requires
            self.wf(),
        ensures
            *p == self@[0],
    {
        &self.tail[0]
    }

    /// The last cell of the body.
    pub fn end(&self) -> (p: &Point)
        requires
            self.wf(),
        ensures
            *p == self@.last(),
    {
        &self.tail[self.tail.len() - 1]
    }

    /// Moves the snake one cell in its heading: the new head is marked on the
    /// grid, and where the body has grown beyond the target length its last
    /// cells are given up and freed. The heading taken becomes the last one.
    /// The cell moved into is not looked at: the caller has.
    pub fn step(&mut self, map: &mut Grid)
        requires
            old(self).wf(),
            old(map).wf(),
            old(self).on(old(map)),
        ensures
            final(self).wf(),
            final(map).wf(),
            final(self).on(final(map)),
            final(map).same_extent(old(map)),
            final(self).width() == old(self).width(),
            final(self).height() == old(self).height(),
            final(self).target_len() == old(self).target_len(),
            final(self).heading() == old(self).heading(),
            final(self).last_heading() == old(self).heading(),
            final(self)@[0] == old(self).peek_spec(),
            final(self)@[0] == old(map).normalize_spec(old(self).peek_spec()),
            final(self)@ == old(self).stepped_body(),
            final(map).cells() == old(self).stepped_cells(old(map).cells()),
            final(map).food_spec() == old(map).food_spec(),
            final(map).walls_spec() == old(map).walls_spec(),
    {
        let new_head = self.peek();
        self.tail.push_front(new_head);
        map.occupy(new_head);
        let ghost longer = seq![new_head] + old(self)@;
        let ghost headed = old(map).cells().insert(new_head, State::Snake);
        assert(self.tail@ =~= longer);
        while self.tail.len() > self.length
            invariant
                map.wf(),
                map.same_extent(old(map)),
                map.food_spec() == old(map).food_spec(),
                map.walls_spec() == old(map).walls_spec(),
                self.size == old(self).size,
                self.length == old(self).length,
                self.direction == old(self).direction,
                old(self).wf(),
                old(self).on(old(map)),
                longer == seq![new_head] + old(self)@,
                headed == old(map).cells().insert(new_head, State::Snake),
                0 <= new_head.x < self.size.0 && 0 <= new_head.y < self.size.1,
                (self.tail@ == longer && map.cells() == headed) || (self.tail@ == longer.drop_last()
                    && map.cells() == headed.remove(old(self)@.last()) && self.tail@.len()
                    == self.length),
            decreases self.tail@.len(),
        {
            let to_free = self.tail.pop_back().unwrap();
            assert(to_free == old(self)@.last());
            assert(self.tail@ =~= longer.drop_last());
            map.free(to_free);
        }
        self.last_direction = self.direction;
    }

    /// The cell that the next step moves the head to: one step from the head
    /// in the heading, across the edge where the head lies on it.
    pub fn peek(&self) -> (p: Point)
        requires
            self.wf(),
        ensures
            p == self.peek_spec(),
            0 <= p.x < self.width(),
            0 <= p.y < self.height(),
    {
        let p = *self.head() + self.direction;
        Point { x: wrap_coordinate(p.x, self.size.0), y: wrap_coordinate(p.y, self.size.1) }
    }

    /// Sets the heading, whatever it is.
    pub fn turn(&mut self, dir: Direction)
        ensures
            final(self).heading() == dir,
            final(self).last_heading() == old(self).last_heading(),
            final(self).same_body(old(self)),
    {
        self.direction = dir;
    }

    /// Whether `dir` is the heading opposite to the one that the last step
    /// took, so that turning to it would turn the snake round on the spot.
    pub fn reverse(&self, dir: Direction) -> (b: bool)
        ensures
            b == self.reverse_spec(dir),
    {
        let r = match dir {
            Direction::N => Direction::S,
            Direction::S => Direction::N,
            Direction::E => Direction::W,
            Direction::W => Direction::E,
        };
        self.last_direction == r
    }

    /// The heading a quarter turn to the left of the snake's.
    pub fn left(&self) -> (d: Direction)
        ensures
            d == self.heading().left_spec(),
    {
        match self.direction {
            Direction::N => Direction::W,
            Direction::S => Direction::E,
            Direction::E => Direction::N,
            Direction::W => Direction::S,
        }
    }

    /// The heading a quarter turn to the right of the snake's.
    pub fn right(&self) -> (d: Direction)
        ensures
            d == self.heading().right_spec(),
    {
        match self.direction {
            Direction::N => Direction::E,
            Direction::S => Direction::W,
            Direction::E => Direction::S,
            Direction::W => Direction::N,
        }
    }

    /// Turns the snake a quarter turn to the left.
    pub fn turn_left(&mut self)
        ensures
            final(self).heading() == old(self).heading().left_spec(),
            final(self).last_heading() == old(self).last_heading(),
            final(self).same_body(old(self)),
    {
        let d = self.left();
        self.turn(d);
    }

    /// Turns the snake a quarter turn to the right.
    pub fn turn_right(&mut self)
        ensures
            final(self).heading() == old(self).heading().right_spec(),
            final(self).last_heading() == old(self).last_heading(),
            final(self).same_body(old(self)),
    {
        let d = self.right();
        self.turn(d);
    }

    /// Lets the snake grow by one cell: the next step keeps the last cell.
    /// A target length that cannot be counted any higher stays as it is.
    pub fn feed(&mut self)
        ensures
            final(self).target_len() == if old(self).target_len() < usize::MAX {
                old(self).target_len() + 1
            } else {
                old(self).target_len()
            },
            final(self)@ == old(self)@,
            final(self).width() == old(self).width(),
            final(self).height() == old(self).height(),
            final(self).heading() == old(self).heading(),
            final(self).last_heading() == old(self).last_heading(),
    {
        if self.length < usize::MAX {
            self.length += 1;
        }
    }

    /// The heading that the next step takes.
    pub fn direction(&self) -> (d: Direction)
        ensures
            d == self.heading(),
    {
        self.direction
    }

    /// The heading that the last step took.
    pub fn last_direction(&self) -> (d: Direction)
        ensures
            d == self.last_heading(),
    {
        self.last_direction
    }

    /// The length that the body grows to.
    pub fn length(&self) -> (n: usize)
        ensures
            n == self.target_len(),
    {
        self.length
    }

    /// The cells of the body, head first.
    pub fn get_tail(&self) -> (t: &VecDeque<Point>)
        ensures
            t@ == self@,
    {
        &self.tail
    }
}

/// Whether `cells` mark the point `p` as part of the snake exactly if it is a
/// cell of `body`.
pub open spec fn shown_at(cells: Map<Point, State>, body: Seq<Point>, p: Point) -> bool {
    (held(cells, p) == State::Snake) == body.contains(p)
}

/// Whether `cells` show the snake where it is: no cell occurs twice in
/// `body`, and the cells marked as part of the snake are those of `body`.
pub open spec fn shows(cells: Map<Point, State>, body: Seq<Point>) -> bool {
    &&& body.no_duplicates()
    &&& forall|p: Point| #[trigger] shown_at(cells, body, p)
}

/// Marking a body without a cell that occurs twice, on a grid that marks no
/// cell as part of the snake, makes the grid show the snake where it is.
pub proof fn lemma_marked_shows(cells: Map<Point, State>, body: Seq<Point>)
    requires
        body.no_duplicates(),
        forall|p: Point| #[trigger] held(cells, p) != State::Snake,
    ensures
        shows(marked(cells, body), body),
{
    assert forall|p: Point| #[trigger] shown_at(marked(cells, body), body, p) by {
        assert(held(cells, p) != State::Snake);
    }
}

/// A step to a cell that is not part of the snake leaves the grid showing
/// the snake where it is.
pub proof fn lemma_step_keeps_shown(
    cells: Map<Point, State>,
    body: Seq<Point>,
    head: Point,
    target: nat,
)
    requires
        body.len() >= 1,
        shows(cells, body),
        held(cells, head) != State::Snake,
    ensures
        shows(grown_cells(cells, body, head, target), grown(body, head, target)),
{
    let longer = seq![head] + body;
    let after = grown(body, head, target);
    let marks = grown_cells(cells, body, head, target);
    assert(shown_at(cells, body, head));
    assert forall|i: int, j: int| 0 <= i < longer.len() && 0 <= j < longer.len() && i != j implies longer[i]
        != longer[j] by {
        if i > 0 && j > 0 {
            assert(body[i - 1] != body[j - 1]);
        } else if i > 0 {
            assert(body.contains(body[i - 1]));
        } else {
            assert(body.contains(body[j - 1]));
        }
    }
    assert forall|p: Point| #[trigger] shown_at(marks, after, p) by {
        assert(shown_at(cells, body, p));
        if body.contains(p) {
            let i = choose|i: int| 0 <= i < body.len() && body[i] == p;
            assert(longer[i + 1] == p);
            if i < body.len() - 1 {
                assert(longer.drop_last()[i + 1] == p);
            }
        }
        if p == head {
            assert(longer[0] == p);
            assert(longer.drop_last()[0] == p);
        }
        if after.contains(p) {
            let i = choose|i: int| 0 <= i < after.len() && after[i] == p;
            assert(longer[i] == p);
            if i > 0 {
                assert(body[i - 1] == p);
            }
        }
    }
}

/// Of the four headings, a turn to exactly one would turn the snake round:
/// the one opposite to the heading that the last step took.
pub proof fn lemma_reverse_is_opposite(s: Snake, dir: Direction)
    ensures
        s.reverse_spec(dir) <==> dir == s.last_heading().opposite_spec(),
{
}

/// The body has at least one cell and is at no time longer than the target
/// length by more than one cell.
pub proof fn lemma_body_length(s: Snake)
    requires
        s.wf(),
    ensures
        1 <= s@.len() <= s.target_len() + 1,
{
}

} // verus!
