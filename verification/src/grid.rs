//! The periodic grid: what each cell holds, the wrap-around arithmetic and the food.

use crate::chance::draw_range;
use crate::orientation::{Direction, Point, State};
use rand::thread_rng;
use std::collections::{HashMap, VecDeque};
use vstd::prelude::*;

verus! {

broadcast use vstd::std_specs::hash::group_hash_axioms;

/// One coordinate wrapped once into `[0, dim)`: the extent is taken off a
/// coordinate at or beyond it and added to a negative one. A coordinate within
/// one extent of the valid range lands in it; one further out does not.
pub open spec fn wrap(v: int, dim: int) -> int {
    if v >= dim {
        v - dim
    } else if v < 0 {
        v + dim
    } else {
        v
    }
}

/// The periodic distance along one axis: the magnitude of the difference,
/// shortened by the extent when it exceeds half the extent.
pub open spec fn axis_distance(a: int, b: int, dim: int) -> int {
    let m = if a >= b {
        a - b
    } else {
        b - a
    };
    if 2 * m > dim {
        if m >= dim {
            m - dim
        } else {
            dim - m
        }
    } else {
        m
    }
}

/// What the point `p` holds where `cells` are the cells that hold something.
pub open spec fn held(cells: Map<Point, State>, p: Point) -> State {
    if cells.contains_key(p) {
        cells[p]
    } else {
        State::Empty
    }
}

/// Whether each cell of a grid of `w` columns and `h` rows holds something.
pub open spec fn covered(cells: Map<Point, State>, w: int, h: int) -> bool {
    forall|p: Point| 0 <= p.x < w && 0 <= p.y < h ==> #[trigger] cells.contains_key(p)
}

/// `cells` with each cell of `body` marked as part of the snake.
pub open spec fn marked(cells: Map<Point, State>, body: Seq<Point>) -> Map<Point, State> {
    Map::new(
        |p: Point| cells.contains_key(p) || body.contains(p),
        |p: Point|
            if body.contains(p) {
                State::Snake
            } else {
                cells[p]
            },
    )
}

/// Wraps one coordinate into an axis of `dim` cells.
pub fn wrap_coordinate(v: i32, dim: u32) -> (r: i32)
    requires
        dim <= i32::MAX,
    ensures
        r == wrap(v as int, dim as int),
{
    let d: i32 = dim as i32;
    if v >= d {
        v - d
    } else if v < 0 {
        v + d
    } else {
        v
    }
}

fn axis_gap(a: i32, b: i32, dim: u32) -> (r: i64)
    ensures
        r == axis_distance(a as int, b as int, dim as int),
{
    let d: i64 = a as i64 - b as i64;
    let m: i64 = if d >= 0 {
        d
    } else {
        -d
    };
    let w: i64 = dim as i64;
    if 2 * m > w {
        if m >= w {
            m - w
        } else {
            w - m
        }
    } else {
        m
    }
}

/// A set of keys below `n` has at most `n` members, and holds every key below
/// `n` if it has exactly `n`.
pub proof fn lemma_keys_below(s: Set<u64>, n: nat)
    requires
        s.finite(),
        forall|k: u64| s.contains(k) ==> k < n,
    ensures
        s.len() <= n,
        s.len() == n ==> forall|k: u64| k < n ==> s.contains(k),
    decreases n,
{
    if n == 0 {
        assert(s =~= Set::<u64>::empty());
    } else if n - 1 > u64::MAX {
        lemma_keys_below(s, (n - 1) as nat);
    } else {
        let top = (n - 1) as u64;
        let rest = s.remove(top);
        lemma_keys_below(rest, (n - 1) as nat);
        if s.len() == n {
            assert(s.contains(top));
            assert forall|k: u64| k < n implies s.contains(k) by {
                if k != top {
                    assert(rest.contains(k));
                }
            }
        }
    }
}

/// How often `generate_food` draws a cell at random before it draws among the
/// empty cells only.
pub const FOOD_DRAWS: u32 = 64;

/// The grid. Its cells are the points of `[0, width) x [0, height)`; a cell
/// that holds nothing is `Empty`.
pub struct Grid {
    size: (u32, u32),
    map: HashMap<u64, State>,
    walls: Vec<Point>,
    food: Point,
}

impl Grid {
    /// The number of columns.
    pub closed spec fn width(&self) -> int {
        self.size.0 as int
    }

    /// The number of rows.
    pub closed spec fn height(&self) -> int {
        self.size.1 as int
    }

    /// The number of cells.
    pub closed spec fn cell_total(&self) -> int {
        self.size.0 * self.size.1
    }

    /// The coordinate recorded as the food's.
    pub closed spec fn food_spec(&self) -> Point {
        self.food
    }

    /// The cells that were walled, in the order in which they were.
    pub closed spec fn walls_spec(&self) -> Seq<Point> {
        self.walls@
    }

    /// The cells that hold something, each with what it holds.
    pub closed spec fn cells(&self) -> Map<Point, State> {
        Map::new(
            |p: Point| self.in_grid(p) && self.map@.contains_key((self.index_spec(p) as u64)),
            |p: Point| self.map@[(self.index_spec(p) as u64)],
        )
    }

    /// The invariant of the representation: only cells are marked, and none as `Empty`.
    pub closed spec fn rep_ok(&self) -> bool {
        forall|k: u64| #[trigger]
            self.map@.contains_key(k) ==> k < self.size.0 * self.size.1 && self.map@[k]
                != State::Empty
    }

    /// Whether `p` is a cell of the grid.
    pub open spec fn in_grid(&self, p: Point) -> bool {
        0 <= p.x < self.width() && 0 <= p.y < self.height()
    }

    /// The place of the cell `p` when the cells are counted row by row.
    pub open spec fn index_spec(&self, p: Point) -> int {
        p.y * self.width() + p.x
    }

    /// The cell one step from `p` in heading `d`, across the edge where `p`
    /// lies on it.
    pub open spec fn neighbor_spec(&self, p: Point, d: Direction) -> Point {
        self.normalize_spec(p.step_spec(d))
    }

    /// Whether `p` lies within one extent of the grid on both axes, so that one
    /// wrap brings it in.
    pub open spec fn reaches(&self, p: Point) -> bool {
        -self.width() <= p.x < 2 * self.width() && -self.height() <= p.y < 2 * self.height()
    }

    /// `p` with each axis wrapped once.
    pub open spec fn normalize_spec(&self, p: Point) -> Point {
        Point {
            x: wrap(p.x as int, self.width()) as i32,
            y: wrap(p.y as int, self.height()) as i32,
        }
    }

    /// What the point `p` holds, taken as it is.
    pub open spec fn state_at(&self, p: Point) -> State {
        held(self.cells(), p)
    }

    /// What `p` holds after wrapping.
    pub open spec fn at_spec(&self, p: Point) -> State {
        self.state_at(self.normalize_spec(p))
    }

    /// The periodic Manhattan distance: the two axis distances added.
    #[verifier::opaque]
    pub open spec fn manhattan_spec(&self, a: Point, b: Point) -> int {
        axis_distance(a.x as int, b.x as int, self.width()) + axis_distance(
            a.y as int,
            b.y as int,
            self.height(),
        )
    }

    /// The distance between any two points fits the type that `manhattan` returns.
    pub proof fn lemma_manhattan_fits(&self, a: Point, b: Point)
        ensures
            0 <= self.manhattan_spec(a, b) < 0x2_0000_0000,
    {
        reveal(Grid::manhattan_spec);
    }

    /// Whether no cell is `Empty`.
    pub open spec fn full(&self) -> bool {
        covered(self.cells(), self.width(), self.height())
    }

    /// The cells without the food's mark.
    pub open spec fn without_food(&self) -> Map<Point, State> {
        if self.state_at(self.food_spec()) == State::Food {
            self.cells().remove(self.food_spec())
        } else {
            self.cells()
        }
    }

    /// Whether `other` has the extent of this grid.
    pub open spec fn same_extent(&self, other: &Grid) -> bool {
        self.width() == other.width() && self.height() == other.height()
    }

    /// The grid's invariant: each extent is at least 1 and fits a coordinate,
    /// only cells of the grid hold anything, at most one cell holds food, which
    /// is the one recorded, and every wall is listed.
    pub open spec fn wf(&self) -> bool {
        &&& self.rep_ok()
        &&& 1 <= self.width() <= i32::MAX
        &&& 1 <= self.height() <= i32::MAX
        &&& forall|p: Point| #[trigger]
            self.cells().contains_key(p) ==> {
                &&& self.in_grid(p)
                &&& self.cells()[p] != State::Empty
                &&& self.cells()[p] == State::Food ==> p == self.food_spec()
                &&& self.cells()[p] == State::Wall ==> self.walls_spec().contains(p)
            }
    }

    proof fn lemma_key_bounds(&self, p: Point)
        requires
            self.in_grid(p),
        ensures
            0 <= p.y * self.size.0 + p.x < self.size.0 * self.size.1,
            self.size.0 * self.size.1 <= u64::MAX,
    {
        let w = self.size.0 as int;
        let h = self.size.1 as int;
        let y = p.y as int;
        assert(y * w <= (h - 1) * w) by (nonlinear_arith)
            requires
                0 <= y <= h - 1,
                0 <= w,
        ;
        assert(0 <= y * w) by (nonlinear_arith)
            requires
                0 <= y,
                0 <= w,
        ;
        assert((h - 1) * w == h * w - w) by (nonlinear_arith);
        assert(h * w == w * h) by (nonlinear_arith);
        assert(w * h <= 0xffff_ffff * 0xffff_ffff) by (nonlinear_arith)
            requires
                0 <= w <= 0xffff_ffff,
                0 <= h <= 0xffff_ffff,
        ;
    }

    /// No other cell has the key of the cell `q`.
    proof fn lemma_key_apart(&self, q: Point)
        requires
            self.in_grid(q),
        ensures
            forall|r: Point|
                self.in_grid(r) && r != q ==> #[trigger] self.index_spec(r) as u64
                    != self.index_spec(q) as u64,
    {
        assert forall|r: Point| self.in_grid(r) && r != q implies #[trigger] self.index_spec(
            r,
        ) as u64 != self.index_spec(q) as u64 by {
            self.lemma_key_injective(r, q);
        }
    }

    proof fn lemma_key_injective(&self, p: Point, q: Point)
        requires
            self.in_grid(p),
            self.in_grid(q),
        ensures
            self.index_spec(p) == self.index_spec(q) ==> p == q,
            self.index_spec(p) as u64 == self.index_spec(q) as u64 ==> p == q,
    {
        self.lemma_key_bounds(p);
        self.lemma_key_bounds(q);
        let w = self.size.0 as int;
        let (py, qy) = (p.y as int, q.y as int);
        if self.index_spec(p) == self.index_spec(q) {
            assert(py == qy) by (nonlinear_arith)
                requires
                    py * w + p.x == qy * w + q.x,
                    0 <= p.x < w,
                    0 <= q.x < w,
            ;
        }
    }

    /// Each key below the number of cells is the key of a cell.
    proof fn lemma_key_onto(&self, k: u64) -> (p: Point)
        requires
            1 <= self.width() <= i32::MAX,
            1 <= self.height() <= i32::MAX,
            k < self.size.0 * self.size.1,
        ensures
            self.in_grid(p),
            (self.index_spec(p) as u64) == k,
            p.x == k % (self.size.0 as u64),
            p.y == k / (self.size.0 as u64),
    {
        let w = self.size.0 as int;
        let h = self.size.1 as int;
        let i = k as int;
        assert(0 <= i / w < h && 0 <= i % w < w && i == (i / w) * w + i % w)
            by (nonlinear_arith)
            requires
                0 <= i < w * h,
                0 < w,
        ;
        Point { x: (i % w) as i32, y: (i / w) as i32 }
    }

    /// A grid of `size.0` columns and `size.1` rows in which every cell is
    /// `Empty`. No food is placed; the food's coordinate is the origin.
    pub fn empty(size: (u32, u32)) -> (g: Grid)
        requires
            1 <= size.0 <= i32::MAX,
            1 <= size.1 <= i32::MAX,
        ensures
            g.wf(),
            g.width() == size.0,
            g.height() == size.1,
            g.cells() == Map::<Point, State>::empty(),
            g.walls_spec() == Seq::<Point>::empty(),
            g.food_spec() == (Point { x: 0, y: 0 }),
    {
        let g = Grid { size, map: HashMap::new(), walls: Vec::new(), food: Point::new(0, 0) };
        assert(g.cells() =~= Map::<Point, State>::empty());
        g
    }

    /// The extent: columns, then rows.
    pub fn size(&self) -> (s: (u32, u32))
        ensures
            s.0 == self.width(),
            s.1 == self.height(),
    {
        self.size
    }

    /// Applies the periodic boundaries: each axis is wrapped once.
    pub fn normalize(&self, p: &Point) -> (q: Point)
        requires
            self.wf(),
        ensures
            q == self.normalize_spec(*p),
            self.reaches(*p) ==> self.in_grid(q),
    {
        Point { x: wrap_coordinate(p.x, self.size.0), y: wrap_coordinate(p.y, self.size.1) }
    }

    fn contains(&self, q: &Point) -> (b: bool)
        requires
            self.wf(),
        ensures
            b == self.in_grid(*q),
    {
        0 <= q.x && (q.x as i64) < (self.size.0 as i64) && 0 <= q.y && (q.y as i64) < (
        self.size.1 as i64)
    }

    /// The number of cells.
    pub fn cell_count(&self) -> (n: u64)
        requires
            self.wf(),
        ensures
            n == self.cell_total(),
    {
        proof {
            self.lemma_key_bounds(Point { x: 0, y: 0 });
        }
        (self.size.0 as u64) * (self.size.1 as u64)
    }

    /// The place of a cell when the cells are counted row by row.
    pub fn index(&self, q: &Point) -> (k: u64)
        requires
            self.wf(),
            self.in_grid(*q),
        ensures
            k == self.index_spec(*q),
            k < self.cell_total(),
    {
        proof {
            self.lemma_key_bounds(*q);
            let (y, w, h) = (q.y as int, self.size.0 as int, self.size.1 as int);
            assert(0 <= y * w <= w * h) by (nonlinear_arith)
                requires
                    0 <= y < h,
                    0 <= w,
            ;
        }
        (q.y as u64) * (self.size.0 as u64) + (q.x as u64)
    }

    /// What the cell at `p` holds: `p` is wrapped, then looked up, and a point
    /// that holds nothing is `Empty`.
    pub fn at(&self, p: &Point) -> (s: State)
        requires
            self.wf(),
        ensures
            s == self.at_spec(*p),
    {
        let q = self.normalize(p);
        if !self.contains(&q) {
            return State::Empty;
        }
        let k = self.index(&q);
        match self.map.get(&k) {
            Some(s) => *s,
            None => State::Empty,
        }
    }

    /// The grid written out: a row of characters for each row of cells, and
    /// in it a character for each cell.
    pub fn rows(&self) -> (r: Vec<Vec<char>>)
        requires
            self.wf(),
        ensures
            r@.len() == self.height(),
            forall|j: int|
                0 <= j < self.height() ==> (#[trigger] r@[j])@.len() == self.width(),
            forall|i: int, j: int|
                0 <= i < self.width() && 0 <= j < self.height() ==> r@[j]@[i] == (
                #[trigger] self.state_at(Point { x: i as i32, y: j as i32 })).symbol_spec(),
    {
        let mut rows: Vec<Vec<char>> = Vec::new();
        let mut j: u32 = 0;
        while j < self.size.1
            invariant
                self.wf(),
                j <= self.size.1,
                rows@.len() == j,
                forall|b: int| 0 <= b < j ==> (#[trigger] rows@[b])@.len() == self.width(),
                forall|a: int, b: int|
                    0 <= a < self.width() && 0 <= b < j ==> rows@[b]@[a] == (
                    #[trigger] self.state_at(Point { x: a as i32, y: b as i32 })).symbol_spec(),
            decreases self.size.1 - j,
        {
            let mut row: Vec<char> = Vec::new();
            let mut i: u32 = 0;
            while i < self.size.0
                invariant
                    self.wf(),
                    j < self.size.1,
                    i <= self.size.0,
                    row@.len() == i,
                    forall|a: int|
                        0 <= a < i ==> row@[a] == (#[trigger] self.state_at(
                            Point { x: a as i32, y: j as i32 },
                        )).symbol_spec(),
                decreases self.size.0 - i,
            {
                let p = Point::new(i as i32, j as i32);
                row.push(self.at(&p).symbol());
                i = i + 1;
            }
            rows.push(row);
            j = j + 1;
        }
        rows
    }

    /// The periodic Manhattan distance between two points. It shortens each
    /// axis by itself, so it is a steering cue and not the length of a
    /// shortest path.
    pub fn manhattan(&self, p1: &Point, p2: &Point) -> (d: i64)
        ensures
            d == self.manhattan_spec(*p1, *p2),
    {
        reveal(Grid::manhattan_spec);
        axis_gap(p1.x, p2.x, self.size.0) + axis_gap(p1.y, p2.y, self.size.1)
    }

    /// The cells that were walled.
    pub fn get_walls(&self) -> (w: &Vec<Point>)
        ensures
            w@ == self.walls_spec(),
    {
        &self.walls
    }

    /// The coordinate recorded as the food's.
    pub fn get_food(&self) -> (f: &Point)
        ensures
            *f == self.food_spec(),
    {
        &self.food
    }

    /// Takes the mark off the cell at `p`, whatever it was.
    pub fn free(&mut self, p: Point)
        requires
            old(self).wf(),
            old(self).reaches(p),
        ensures
            final(self).wf(),
            final(self).same_extent(old(self)),
            final(self).cells() == old(self).cells().remove(old(self).normalize_spec(p)),
            final(self).food_spec() == old(self).food_spec(),
            final(self).walls_spec() == old(self).walls_spec(),
    {
        let q = self.normalize(&p);
        let k = self.index(&q);
        self.map.remove(&k);
        proof {
            self.lemma_key_apart(q);
            assert(self.cells() =~= old(self).cells().remove(q));
        }
    }

    /// Marks the cell at `p` as part of the snake.
    pub fn occupy(&mut self, p: Point)
        requires
            old(self).wf(),
            old(self).reaches(p),
        ensures
            final(self).wf(),
            final(self).same_extent(old(self)),
            final(self).cells() == old(self).cells().insert(
                old(self).normalize_spec(p),
                State::Snake,
            ),
            final(self).food_spec() == old(self).food_spec(),
            final(self).walls_spec() == old(self).walls_spec(),
    {
        let q = self.normalize(&p);
        self.mark(q, State::Snake);
    }

    fn mark(&mut self, q: Point, s: State)
        requires
            old(self).wf(),
            old(self).in_grid(q),
            s == State::Snake || s == State::Wall,
            s == State::Wall ==> old(self).walls_spec().contains(q),
        ensures
            final(self).wf(),
            final(self).same_extent(old(self)),
            final(self).cells() == old(self).cells().insert(q, s),
            final(self).food_spec() == old(self).food_spec(),
            final(self).walls_spec() == old(self).walls_spec(),
    {
        let k = self.index(&q);
        self.map.insert(k, s);
        proof {
            self.lemma_key_apart(q);
            assert(self.cells() =~= old(self).cells().insert(q, s));
        }
    }

    /// Marks each cell of `body` as part of the snake.
    pub fn init_snake(&mut self, body: &VecDeque<Point>)
        requires
            old(self).wf(),
            forall|i: int| 0 <= i < body@.len() ==> old(self).in_grid(#[trigger] body@[i]),
        ensures
            final(self).wf(),
            final(self).same_extent(old(self)),
            final(self).cells() == marked(old(self).cells(), body@),
            final(self).food_spec() == old(self).food_spec(),
            final(self).walls_spec() == old(self).walls_spec(),
    {
        let mut i: usize = 0;
        assert(self.cells() =~= marked(old(self).cells(), body@.subrange(0, 0)));
        while i < body.len()
            invariant
                i <= body@.len(),
                self.wf(),
                self.same_extent(old(self)),
                forall|j: int| 0 <= j < body@.len() ==> old(self).in_grid(#[trigger] body@[j]),
                self.cells() == marked(old(self).cells(), body@.subrange(0, i as int)),
                self.food_spec() == old(self).food_spec(),
                self.walls_spec() == old(self).walls_spec(),
            decreases body@.len() - i,
        {
            let c = body[i];
            self.occupy(c);
            proof {
                let before = body@.subrange(0, i as int);
                let after = body@.subrange(0, i + 1);
                assert(after =~= before.push(c));
                assert forall|p: Point| after.contains(p) <==> before.contains(p) || p == c by {
                    if before.contains(p) {
                        let j = choose|j: int| 0 <= j < before.len() && before[j] == p;
                        assert(after[j] == p);
                    }
                    if p == c {
                        assert(after[i as int] == p);
                    }
                }
                assert(self.cells() =~= marked(old(self).cells(), after));
            }
            i = i + 1;
        }
        assert(body@.subrange(0, i as int) =~= body@);
    }

    /// Walls the cell at `p` and lists it.
    pub fn add_wall(&mut self, p: Point)
        requires
            old(self).wf(),
            old(self).reaches(p),
        ensures
            final(self).wf(),
            final(self).same_extent(old(self)),
            final(self).cells() == old(self).cells().insert(
                old(self).normalize_spec(p),
                State::Wall,
            ),
            final(self).food_spec() == old(self).food_spec(),
            final(self).walls_spec() == old(self).walls_spec().push(old(self).normalize_spec(p)),
    {
        let q = self.normalize(&p);
        self.walls.push(q);
        proof {
            let before = old(self).walls_spec();
            assert(self.walls_spec() == before.push(q));
            assert(before.push(q)[before.len() as int] == q);
            assert forall|r: Point| before.contains(r) implies self.walls_spec().contains(r) by {
                let i = choose|i: int| 0 <= i < before.len() && before[i] == r;
                assert(before.push(q)[i] == r);
            }
            assert(self.cells() == old(self).cells());
        }
        self.mark(q, State::Wall);
    }

    /// Moves the food to the cell at `p` if that cell is `Empty`, and says
    /// whether it did. The cell that held the food before loses its mark.
    pub fn put_food(&mut self, p: Point) -> (placed: bool)
        requires
            old(self).wf(),
        ensures
            final(self).wf(),
            final(self).same_extent(old(self)),
            final(self).walls_spec() == old(self).walls_spec(),
            placed == (old(self).in_grid(old(self).normalize_spec(p)) && old(self).at_spec(p)
                == State::Empty),
            placed ==> final(self).food_spec() == old(self).normalize_spec(p)
                && final(self).cells() == old(self).without_food().insert(
                old(self).normalize_spec(p),
                State::Food,
            ),
            !placed ==> final(self).food_spec() == old(self).food_spec() && final(self).cells()
                == old(self).cells(),
    {
        let q = self.normalize(&p);
        if !self.contains(&q) {
            return false;
        }
        let k = self.index(&q);
        if self.map.contains_key(&k) {
            return false;
        }
        self.unmark_food();
        self.map.insert(k, State::Food);
        self.food = q;
        proof {
            self.lemma_key_apart(q);
            assert(self.cells() =~= old(self).without_food().insert(q, State::Food));
        }
        true
    }

    fn unmark_food(&mut self)
        requires
            old(self).wf(),
        ensures
            final(self).wf(),
            final(self).same_extent(old(self)),
            final(self).walls_spec() == old(self).walls_spec(),
            final(self).food_spec() == old(self).food_spec(),
            final(self).cells() == old(self).without_food(),
            forall|p: Point| #[trigger]
                final(self).cells().contains_key(p) ==> final(self).cells()[p] != State::Food,
    {
        let f = self.food;
        if self.contains(&f) {
            let k = self.index(&f);
            let is_food = match self.map.get(&k) {
                Some(s) => *s == State::Food,
                None => false,
            };
            if is_food {
                self.map.remove(&k);
                proof {
                    self.lemma_key_apart(f);
                    assert(self.cells() =~= old(self).cells().remove(f));
                }
            }
        }
    }

    /// Takes the food off the grid: its cell loses the mark, and the food's
    /// coordinate moves out of sight, to `(-1, -1)`.
    pub fn remove_food(&mut self)
        requires
            old(self).wf(),
        ensures
            final(self).wf(),
            final(self).same_extent(old(self)),
            final(self).walls_spec() == old(self).walls_spec(),
            final(self).food_spec() == (Point { x: -1i32, y: -1i32 }),
            final(self).cells() == old(self).without_food(),
    {
        self.unmark_food();
        let ghost unmarked = self.cells();
        self.food = Point::new(-1, -1);
        assert(self.cells() =~= unmarked);
    }

    /// The empty cell that has `n` empty cells before it, row by row.
    fn nth_empty(&self, n: u64) -> (p: Point)
        requires
            self.wf(),
            n + self.map@.len() < self.size.0 * self.size.1,
        ensures
            self.in_grid(p),
            self.state_at(p) == State::Empty,
    {
        proof {
            self.lemma_full_by_count();
        }
        let w: u64 = self.size.0 as u64;
        let mut p = Point::new(0, 0);
        let mut i: u64 = 0;
        let mut left: u64 = n;
        let ghost mut taken: Set<u64> = Set::empty();
        loop
            invariant_except_break
                self.wf(),
                w == self.size.0,
                n + self.map@.len() < self.size.0 * self.size.1 <= u64::MAX,
                i <= self.size.0 * self.size.1,
                left <= n,
                taken.finite(),
                taken.len() + (n - left) == i,
                forall|k: u64| taken.contains(k) <==> k < i && self.map@.contains_key(k),
            ensures
                self.in_grid(p),
                self.state_at(p) == State::Empty,
            decreases self.size.0 * self.size.1 - i,
        {
            proof {
                if i == self.size.0 * self.size.1 {
                    assert(taken =~= self.map@.dom());
                }
            }
            if !self.map.contains_key(&i) {
                if left == 0 {
                    proof {
                        self.lemma_key_onto(i);
                    }
                    p = Point::new((i % w) as i32, (i / w) as i32);
                    break ;
                }
                left = left - 1;
            } else {
                proof {
                    taken = taken.insert(i);
                }
            }
            i = i + 1;
        }
        p
    }

    /// Puts new food on a cell drawn at random among the empty ones, each as
    /// likely as the other, and returns that cell. The cell that held the food
    /// before loses its mark. Cells are drawn from the whole grid first, a
    /// bounded number of times; if none of them is empty, one is drawn among
    /// the empty cells.
    pub fn generate_food(&mut self) -> (p: Point)
        requires
            old(self).wf(),
            !old(self).full(),
        ensures
            final(self).wf(),
            final(self).same_extent(old(self)),
            final(self).walls_spec() == old(self).walls_spec(),
            old(self).in_grid(p),
            old(self).state_at(p) == State::Empty,
            final(self).food_spec() == p,
            final(self).cells() == old(self).without_food().insert(p, State::Food),
    {
        let mut rng = thread_rng();
        let mut tries: u32 = 0;
        while tries < FOOD_DRAWS
            invariant
                self.wf(),
                self.same_extent(old(self)),
                self.walls_spec() == old(self).walls_spec(),
                self.food_spec() == old(self).food_spec(),
                self.cells() == old(self).cells(),
            decreases FOOD_DRAWS - tries,
        {
            let x = draw_range(&mut rng, 0, self.size.0 as u64) as i32;
            let y = draw_range(&mut rng, 0, self.size.1 as u64) as i32;
            let p = Point::new(x, y);
            if self.put_food(p) {
                return p;
            }
            tries = tries + 1;
        }
        proof {
            let free = choose|p: Point|
                0 <= p.x < old(self).width() && 0 <= p.y < old(self).height() && !(
                #[trigger] old(self).cells().contains_key(p));
            assert(self.in_grid(free) && !self.cells().contains_key(free));
            self.lemma_full_by_count();
        }
        let cells: u64 = (self.size.0 as u64) * (self.size.1 as u64);
        let n = draw_range(&mut rng, 0, cells - self.map.len() as u64);
        let p = self.nth_empty(n);
        let placed = self.put_food(p);
        assert(placed);
        p
    }

    /// The food was eaten: new food is put as `generate_food` does.
    pub fn consumed_food(&mut self)
        requires
            old(self).wf(),
            !old(self).full(),
        ensures
            final(self).wf(),
            final(self).same_extent(old(self)),
            final(self).walls_spec() == old(self).walls_spec(),
            old(self).in_grid(final(self).food_spec()),
            old(self).state_at(final(self).food_spec()) == State::Empty,
            final(self).cells() == old(self).without_food().insert(
                final(self).food_spec(),
                State::Food,
            ),
    {
        self.generate_food();
    }

    /// A grid of `size.0` columns and `size.1` rows that holds nothing but
    /// food, on a cell drawn at random.
    pub fn new(size: (u32, u32)) -> (g: Grid)
        requires
            1 <= size.0 <= i32::MAX,
            1 <= size.1 <= i32::MAX,
        ensures
            g.wf(),
            g.width() == size.0,
            g.height() == size.1,
            g.in_grid(g.food_spec()),
            g.cells() == Map::<Point, State>::empty().insert(g.food_spec(), State::Food),
            g.walls_spec() == Seq::<Point>::empty(),
    {
        let mut g = Grid::empty(size);
        assert(g.in_grid(Point { x: 0, y: 0 }) && !g.cells().contains_key(Point { x: 0, y: 0 }));
        g.generate_food();
        g
    }

    /// Whether no cell is `Empty`, so that there is no room for food.
    pub fn is_full(&self) -> (b: bool)
        requires
            self.wf(),
        ensures
            b == self.full(),
    {
        proof {
            self.lemma_full_by_count();
        }
        let n: u64 = (self.size.0 as u64) * (self.size.1 as u64);
        self.map.len() as u64 >= n
    }

    /// The grid is full exactly when as many cells are marked as there are cells.
    proof fn lemma_full_by_count(&self)
        requires
            self.wf(),
        ensures
            self.size.0 * self.size.1 <= u64::MAX,
            self.map@.len() <= self.size.0 * self.size.1,
            self.full() <==> self.map@.len() == self.size.0 * self.size.1,
    {
        let n = (self.size.0 * self.size.1) as nat;
        let keys = self.map@.dom();
        self.lemma_key_bounds(Point { x: 0, y: 0 });
        lemma_keys_below(keys, n);
        if keys.len() == n {
            assert forall|p: Point| self.in_grid(p) implies #[trigger] self.cells().contains_key(
                p,
            ) by {
                self.lemma_key_bounds(p);
                assert(keys.contains((self.index_spec(p) as u64)));
            }
        } else {
            if self.full() {
                assert forall|k: u64| k < n implies keys.contains(k) by {
                    let p = self.lemma_key_onto(k);
                    assert(self.cells().contains_key(p));
                }
                lemma_keys_below(keys, n);
                assert forall|k: u64| keys.contains(k) <==> k < n by {}
                lemma_all_keys_below(keys, n);
            }
        }
    }
}

/// Wrapping a point twice is wrapping it once, and what comes out is a cell of
/// the grid, for every point within one extent of the grid.
pub proof fn lemma_normalize_idempotent(g: Grid, p: Point)
    requires
        g.wf(),
        g.reaches(p),
    ensures
        g.in_grid(g.normalize_spec(p)),
        g.normalize_spec(g.normalize_spec(p)) == g.normalize_spec(p),
{
}

/// Two cells with the same place in the count are one cell, and the place of
/// a cell is below the number of cells.
pub proof fn lemma_index_injective(g: Grid, p: Point, q: Point)
    requires
        g.wf(),
        g.in_grid(p),
        g.in_grid(q),
    ensures
        g.cell_total() == g.width() * g.height(),
        0 <= g.index_spec(p) < g.cell_total() <= u64::MAX,
        g.index_spec(p) == g.index_spec(q) ==> p == q,
{
    g.lemma_key_bounds(p);
    g.lemma_key_bounds(q);
    g.lemma_key_injective(p, q);
}

/// Between two cells of the grid the periodic Manhattan distance is at most
/// half of each extent, added: no cell is further from another than
/// `width + height`.
pub proof fn lemma_manhattan_bounded(g: Grid, a: Point, b: Point)
    requires
        g.wf(),
        g.in_grid(a),
        g.in_grid(b),
    ensures
        0 <= g.manhattan_spec(a, b),
        2 * g.manhattan_spec(a, b) <= g.width() + g.height(),
{
    reveal(Grid::manhattan_spec);
}

/// A cell and a different cell one step from it are at distance 1.
pub proof fn lemma_neighbor_distance(g: Grid, a: Point, d: Direction)
    requires
        g.wf(),
        g.in_grid(a),
        g.neighbor_spec(a, d) != a,
    ensures
        g.in_grid(g.neighbor_spec(a, d)),
        g.manhattan_spec(a, g.neighbor_spec(a, d)) == 1,
        g.manhattan_spec(g.neighbor_spec(a, d), a) == 1,
{
    reveal(Grid::manhattan_spec);
}

/// The periodic Manhattan distance is the same in both directions.
pub proof fn lemma_manhattan_symmetric(g: Grid, a: Point, b: Point)
    ensures
        g.manhattan_spec(a, b) == g.manhattan_spec(b, a),
{
    reveal(Grid::manhattan_spec);
}

/// A finite set that holds exactly the keys below `n` has `n` members.
proof fn lemma_all_keys_below(s: Set<u64>, n: nat)
    requires
        n <= u64::MAX,
        s.finite(),
        forall|k: u64| s.contains(k) <==> k < n,
    ensures
        s.len() == n,
    decreases n,
{
    if n == 0 {
        assert(s =~= Set::<u64>::empty());
    } else {
        let top = (n - 1) as u64;
        assert(s.contains(top));
        lemma_all_keys_below(s.remove(top), (n - 1) as nat);
    }
}

} // verus!
