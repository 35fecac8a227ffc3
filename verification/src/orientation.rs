//! Points, headings and cell states.

use vstd::prelude::*;

verus! {

/// A cell coordinate. It is not bounded by itself: a grid wraps it into its extent.
#[derive(Hash, PartialEq, Eq, Debug, Clone, Copy, Structural)]
pub struct Point {
    pub x: i32,
    pub y: i32,
}

/// One of the four cardinal headings. North is towards smaller `y`.
#[derive(Hash, Debug, Clone, Copy, PartialEq, Eq, Structural)]
pub enum Direction {
    N,
    S,
    W,
    E,
}

/// What a cell of the grid holds.
#[derive(Hash, Debug, Clone, Copy, PartialEq, Eq, Structural)]
pub enum State {
    Empty,
    Wall,
    Snake,
    Food,
}

/// The verdict of a reachability search.
#[derive(Hash, Debug, Clone, Copy, PartialEq, Eq, Structural)]
pub enum Reachable {
    Yes,
    No,
}

impl Direction {
    /// The change of `x` that one step in this heading makes.
    pub open spec fn dx(self) -> int {
        match self {
            Direction::E => 1,
            Direction::W => -1,
            _ => 0,
        }
    }

    /// The change of `y` that one step in this heading makes.
    pub open spec fn dy(self) -> int {
        match self {
            Direction::S => 1,
            Direction::N => -1,
            _ => 0,
        }
    }

    /// The headings in the order in which a point hands out its four
    /// neighbours: west, north, east, south.
    pub open spec fn nth(i: int) -> Direction {
        if i == 0 {
            Direction::W
        } else if i == 1 {
            Direction::N
        } else if i == 2 {
            Direction::E
        } else {
            Direction::S
        }
    }

    /// The heading a quarter turn to the left.
    pub open spec fn left_spec(self) -> Direction {
        match self {
            Direction::N => Direction::W,
            Direction::S => Direction::E,
            Direction::E => Direction::N,
            Direction::W => Direction::S,
        }
    }

    /// The heading a quarter turn to the right.
    pub open spec fn right_spec(self) -> Direction {
        match self {
            Direction::N => Direction::E,
            Direction::S => Direction::W,
            Direction::E => Direction::S,
            Direction::W => Direction::N,
        }
    }

    /// The heading that points the other way.
    pub open spec fn opposite_spec(self) -> Direction {
        match self {
            Direction::N => Direction::S,
            Direction::S => Direction::N,
            Direction::E => Direction::W,
            Direction::W => Direction::E,
        }
    }
}

impl State {
    /// A hazard is a cell that kills the snake when it enters: a wall or its own body.
    pub open spec fn is_hazard(self) -> bool {
        self == State::Wall || self == State::Snake
    }

    /// The character that stands for this where the grid is written out.
    pub open spec fn symbol_spec(self) -> char {
        match self {
            State::Snake => 's',
            State::Food => 'f',
            State::Empty => ' ',
            State::Wall => '#',
        }
    }

    /// The character that stands for this where the grid is written out.
    pub fn symbol(self) -> (c: char)
        ensures
            c == self.symbol_spec(),
    {
        match self {
            State::Snake => 's',
            State::Food => 'f',
            State::Empty => ' ',
            State::Wall => '#',
        }
    }

    /// Whether entering a cell that holds this kills the snake.
    pub fn hazard(self) -> (b: bool)
        ensures
            b == self.is_hazard(),
    {
        match self {
            State::Empty | State::Food => false,
            _ => true,
        }
    }
}

impl Point {
    /// The point `(x, y)`.
    pub fn new(x: i32, y: i32) -> (p: Point)
        ensures
            p.x == x,
            p.y == y,
    {
        Point { x, y }
    }

    /// Whether the sum with `(dx, dy)` stays within the range of the coordinates.
    pub open spec fn can_shift(self, dx: int, dy: int) -> bool {
        i32::MIN <= self.x + dx <= i32::MAX && i32::MIN <= self.y + dy <= i32::MAX
    }

    /// The point `(dx, dy)` away, on the unbounded plane.
    pub open spec fn shifted(self, dx: int, dy: int) -> Point {
        Point { x: (self.x + dx) as i32, y: (self.y + dy) as i32 }
    }

    /// The point one step away in heading `d`, on the unbounded plane.
    pub open spec fn step_spec(self, d: Direction) -> Point {
        self.shifted(d.dx(), d.dy())
    }

    /// Whether each coordinate has a value on both sides, so that every
    /// neighbour is a point.
    pub open spec fn has_room(self) -> bool {
        i32::MIN < self.x < i32::MAX && i32::MIN < self.y < i32::MAX
    }

    /// The four neighbours that share an edge with this point, in the order
    /// in which they are handed out: west, north, east, south.
    pub open spec fn direct_spec(self) -> Seq<Point> {
        Seq::new(4, |i: int| self.step_spec(Direction::nth(i)))
    }

    /// The eight neighbours that share an edge or a corner with this point, in
    /// the order in which they are handed out.
    pub open spec fn diagonal_spec(self) -> Seq<Point> {
        seq![
            self.shifted(-1, 1),
            self.shifted(-1, 0),
            self.shifted(-1, -1),
            self.shifted(0, -1),
            self.shifted(1, -1),
            self.shifted(1, 0),
            self.shifted(1, 1),
            self.shifted(0, 1),
        ]
    }

    /// The four neighbours that share an edge with this point.
    pub fn neighbors(&self) -> (n: Neighbor)
        requires
            self.has_room(),
        ensures
            n.wf(),
            n.remaining() == self.direct_spec(),
    {
        Neighbor::direct(*self)
    }

    /// The eight neighbours that share an edge or a corner with this point.
    pub fn neighbors2(&self) -> (n: Neighbor)
        requires
            self.has_room(),
        ensures
            n.wf(),
            n.remaining() == self.diagonal_spec(),
    {
        Neighbor::diagonal(*self)
    }
}

/// The neighbours of a point, handed out one at a time.
pub struct Neighbor {
    pos: Point,
    offsets: Vec<Point>,
}

impl Neighbor {
    /// The points still to come, in the order in which `next` hands them out.
    pub closed spec fn remaining(&self) -> Seq<Point> {
        Seq::new(
            self.offsets@.len(),
            |i: int|
                {
                    let o = self.offsets@[self.offsets@.len() - 1 - i];
                    self.pos.shifted(o.x as int, o.y as int)
                },
        )
    }

    /// Every point still to come lies within the range of the coordinates.
    pub closed spec fn wf(&self) -> bool {
        forall|i: int|
            0 <= i < self.offsets@.len() ==> self.pos.can_shift(
                (#[trigger] self.offsets@[i]).x as int,
                self.offsets@[i].y as int,
            )
    }

    /// The four neighbours that share an edge with `pos`.
    pub fn direct(pos: Point) -> (n: Neighbor)
        requires
            pos.has_room(),
        ensures
            n.wf(),
            n.remaining() == pos.direct_spec(),
    {
        let mut offsets: Vec<Point> = Vec::new();
        offsets.push(Point::new(0, 1));
        offsets.push(Point::new(1, 0));
        offsets.push(Point::new(0, -1));
        offsets.push(Point::new(-1, 0));
        let n = Neighbor { pos, offsets };
        assert(n.remaining() =~= pos.direct_spec());
        n
    }

    /// The eight neighbours that share an edge or a corner with `pos`.
    pub fn diagonal(pos: Point) -> (n: Neighbor)
        requires
            pos.has_room(),
        ensures
            n.wf(),
            n.remaining() == pos.diagonal_spec(),
    {
        let mut offsets: Vec<Point> = Vec::new();
        offsets.push(Point::new(0, 1));
        offsets.push(Point::new(1, 1));
        offsets.push(Point::new(1, 0));
        offsets.push(Point::new(1, -1));
        offsets.push(Point::new(0, -1));
        offsets.push(Point::new(-1, -1));
        offsets.push(Point::new(-1, 0));
        offsets.push(Point::new(-1, 1));
        let n = Neighbor { pos, offsets };
        assert(n.remaining() =~= pos.diagonal_spec());
        n
    }

    /// Hands out the next neighbour, or `None` when all have been.
    pub fn next(&mut self) -> (r: Option<Point>)
        requires
            old(self).wf(),
        ensures
            final(self).wf(),
            old(self).remaining().len() == 0 ==> {
                &&& r.is_none()
                &&& final(self).remaining() == old(self).remaining()
            },
            old(self).remaining().len() > 0 ==> {
                &&& r == Some(old(self).remaining()[0])
                &&& final(self).remaining() == old(self).remaining().drop_first()
            },
    {
        match self.offsets.pop() {
            Some(o) => {
                assert(self.remaining() =~= old(self).remaining().drop_first());
                Some(self.pos + o)
            },
            None => {
                assert(self.remaining() =~= old(self).remaining());
                None
            },
        }
    }
}

/// A point and a heading add up to the point one step away.
impl std::ops::Add<Direction> for Point {
    type Output = Point;

    fn add(self, other: Direction) -> Point {
        match other {
            Direction::N => Point { x: self.x, y: self.y - 1 },
            Direction::S => Point { x: self.x, y: self.y + 1 },
            Direction::E => Point { x: self.x + 1, y: self.y },
            Direction::W => Point { x: self.x - 1, y: self.y },
        }
    }
}

impl vstd::std_specs::ops::AddSpecImpl<Direction> for Point {
    open spec fn obeys_add_spec() -> bool {
        true
    }

    open spec fn add_req(self, rhs: Direction) -> bool {
        self.can_shift(rhs.dx(), rhs.dy())
    }

    open spec fn add_spec(self, rhs: Direction) -> Point {
        self.step_spec(rhs)
    }
}

/// Two points add up coordinate by coordinate.
impl std::ops::Add<Point> for Point {
    type Output = Point;

    fn add(self, other: Point) -> Point {
        Point { x: self.x + other.x, y: self.y + other.y }
    }
}

impl vstd::std_specs::ops::AddSpecImpl<Point> for Point {
    open spec fn obeys_add_spec() -> bool {
        true
    }

    open spec fn add_req(self, rhs: Point) -> bool {
        self.can_shift(rhs.x as int, rhs.y as int)
    }

    open spec fn add_spec(self, rhs: Point) -> Point {
        self.shifted(rhs.x as int, rhs.y as int)
    }
}

} // verus!
