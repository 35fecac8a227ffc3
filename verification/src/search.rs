//! Reachability on the grid: a best-first search over the cells that the
//! snake can enter, with the periodic Manhattan distance as its guide.

use crate::frontier::{Frontier, Thingy};
use crate::grid::{
    lemma_index_injective, lemma_keys_below, lemma_manhattan_bounded, lemma_neighbor_distance, Grid,
};
use crate::orientation::{Direction, Point, Reachable, State};
use std::collections::HashSet;
use vstd::multiset::Multiset;
use vstd::prelude::*;

verus! {

broadcast use vstd::std_specs::hash::group_hash_axioms;

/// Whether the snake can move from the cell `a` to the cell `b`: `b` is one
/// step from `a`, across an edge of the grid or not, and holds no hazard.
pub open spec fn link(map: Grid, a: Point, b: Point) -> bool {
    &&& !map.state_at(b).is_hazard()
    &&& {
        ||| b == map.neighbor_spec(a, Direction::N)
        ||| b == map.neighbor_spec(a, Direction::S)
        ||| b == map.neighbor_spec(a, Direction::W)
        ||| b == map.neighbor_spec(a, Direction::E)
    }
}

/// Whether the snake can move into the `i`-th cell of `walk` from the one
/// before it.
pub open spec fn walk_step(map: Grid, walk: Seq<Point>, i: int) -> bool {
    link(map, walk[i - 1], walk[i])
}

/// A walk: cells in a row, each but the first entered from the one before it.
/// Nothing is asked of the first cell.
pub open spec fn is_walk(map: Grid, walk: Seq<Point>) -> bool {
    &&& walk.len() > 0
    &&& forall|i: int| 0 < i < walk.len() ==> #[trigger] walk_step(map, walk, i)
}

/// Whether a walk leads from `from` to `to`.
pub open spec fn connected(map: Grid, from: Point, to: Point) -> bool {
    exists|walk: Seq<Point>| #[trigger]
        is_walk(map, walk) && walk[0] == from && walk.last() == to
}

/// What the search decides: whether a walk leads from `start` to a cell at
/// distance 1 from `target`.
pub open spec fn reaches_target(map: Grid, start: Point, target: Point) -> bool {
    exists|c: Point| #[trigger] connected(map, start, c) && map.manhattan_spec(c, target) == 1
}

/// Every cell is connected to itself.
pub proof fn lemma_connected_self(map: Grid, a: Point)
    ensures
        connected(map, a, a),
{
    let walk = seq![a];
    assert(is_walk(map, walk));
    assert(walk[0] == a && walk.last() == a);
}

/// A walk can be made longer by one move.
pub proof fn lemma_connected_step(map: Grid, a: Point, b: Point, c: Point)
    requires
        connected(map, a, b),
        link(map, b, c),
    ensures
        connected(map, a, c),
{
    let walk = choose|walk: Seq<Point>| #[trigger]
        is_walk(map, walk) && walk[0] == a && walk.last() == b;
    let longer = walk.push(c);
    assert forall|i: int| 0 < i < longer.len() implies #[trigger] walk_step(map, longer, i) by {
        if i < walk.len() {
            assert(walk_step(map, walk, i));
        }
    }
    assert(is_walk(map, longer));
    assert(longer[0] == a && longer.last() == c);
}

/// Whether no move leads out of `inside`.
pub open spec fn closed_under_moves(map: Grid, inside: Set<Point>) -> bool {
    forall|a: Point, b: Point|
        inside.contains(a) && #[trigger] link(map, a, b) ==> inside.contains(b)
}

proof fn lemma_walk_stays(map: Grid, walk: Seq<Point>, inside: Set<Point>, i: int)
    requires
        is_walk(map, walk),
        inside.contains(walk[0]),
        closed_under_moves(map, inside),
        0 <= i < walk.len(),
    ensures
        inside.contains(walk[i]),
    decreases i,
{
    if i > 0 {
        lemma_walk_stays(map, walk, inside, i - 1);
        assert(walk_step(map, walk, i));
    }
}

/// A walk that begins in a set of cells that no move leads out of ends in it.
pub proof fn lemma_connected_stays(map: Grid, start: Point, inside: Set<Point>, c: Point)
    requires
        inside.contains(start),
        closed_under_moves(map, inside),
        connected(map, start, c),
    ensures
        inside.contains(c),
{
    let walk = choose|walk: Seq<Point>| #[trigger]
        is_walk(map, walk) && walk[0] == start && walk.last() == c;
    lemma_walk_stays(map, walk, inside, walk.len() - 1);
}

/// Whether a walk leads from any cell of `region` to any other without
/// leaving it.
pub open spec fn region_connected(map: Grid, region: Set<Point>) -> bool {
    forall|a: Point, b: Point|
        region.contains(a) && region.contains(b) ==> exists|walk: Seq<Point>| #[trigger]
            is_walk(map, walk) && walk[0] == a && walk.last() == b && forall|i: int|
                0 <= i < walk.len() ==> region.contains(#[trigger] walk[i])
}

/// The part of a walk up to its `n`-th cell is a walk.
proof fn lemma_walk_prefix(map: Grid, walk: Seq<Point>, n: int)
    requires
        is_walk(map, walk),
        0 <= n < walk.len(),
    ensures
        is_walk(map, walk.subrange(0, n + 1)),
        walk.subrange(0, n + 1)[0] == walk[0],
        walk.subrange(0, n + 1).last() == walk[n],
{
    let part = walk.subrange(0, n + 1);
    assert forall|i: int| 0 < i < part.len() implies #[trigger] walk_step(map, part, i) by {
        assert(walk_step(map, walk, i));
    }
}

/// On a walk that does not begin at `target` but ends there, some cell other
/// than `target` comes right before `target`.
proof fn lemma_first_arrival(map: Grid, walk: Seq<Point>, target: Point, n: int) -> (i: int)
    requires
        is_walk(map, walk),
        0 <= n < walk.len(),
        walk[0] != target,
        walk[n] == target,
    ensures
        0 < i <= n,
        walk[i] == target,
        walk[i - 1] != target,
    decreases n,
{
    if walk[n - 1] != target {
        n
    } else {
        lemma_first_arrival(map, walk, target, n - 1)
    }
}

/// The search finds the target from every cell next to a region of empty
/// cells that holds the target: if a cell of a connected region of empty
/// cells is one step from `start` and is not `start` itself, and `target`
/// lies in that region, then a walk leads from `start` to a cell at distance
/// 1 from `target`, which is when `best_first_search` answers `Yes`.
pub proof fn lemma_reaches_adjacent_region(
    map: Grid,
    start: Point,
    target: Point,
    region: Set<Point>,
    entry: Point,
    d: Direction,
)
    requires
        map.wf(),
        map.in_grid(start),
        forall|c: Point| #[trigger]
            region.contains(c) ==> map.in_grid(c) && map.state_at(c) == State::Empty,
        region_connected(map, region),
        region.contains(target),
        region.contains(entry),
        entry == map.neighbor_spec(start, d),
        entry != start,
    ensures
        reaches_target(map, start, target),
{
    lemma_connected_self(map, start);
    if entry == target {
        lemma_neighbor_distance(map, start, d);
        assert(connected(map, start, start) && map.manhattan_spec(start, target) == 1);
    } else {
        let walk = choose|walk: Seq<Point>| #[trigger]
            is_walk(map, walk) && walk[0] == entry && walk.last() == target && forall|i: int|
                0 <= i < walk.len() ==> region.contains(#[trigger] walk[i]);
        let i = lemma_first_arrival(map, walk, target, walk.len() - 1);
        let before = walk[i - 1];
        assert(walk_step(map, walk, i));
        assert(region.contains(before));
        assert(link(map, start, entry));
        lemma_connected_step(map, start, start, entry);
        lemma_walk_prefix(map, walk, i - 1);
        lemma_connected_join(map, start, entry, walk.subrange(0, i), i - 1);
        assert(walk.subrange(0, i)[i - 1] == before);
        if target == map.neighbor_spec(before, Direction::N) {
            lemma_neighbor_distance(map, before, Direction::N);
        } else if target == map.neighbor_spec(before, Direction::S) {
            lemma_neighbor_distance(map, before, Direction::S);
        } else if target == map.neighbor_spec(before, Direction::W) {
            lemma_neighbor_distance(map, before, Direction::W);
        } else {
            lemma_neighbor_distance(map, before, Direction::E);
        }
        assert(connected(map, start, before) && map.manhattan_spec(before, target) == 1);
    }
}

/// A walk goes on from where another walk ends.
proof fn lemma_connected_join(map: Grid, a: Point, b: Point, walk: Seq<Point>, n: int)
    requires
        connected(map, a, b),
        is_walk(map, walk),
        walk[0] == b,
        0 <= n < walk.len(),
    ensures
        connected(map, a, walk[n]),
    decreases n,
{
    if n > 0 {
        lemma_connected_join(map, a, b, walk, n - 1);
        assert(walk_step(map, walk, n));
        lemma_connected_step(map, a, walk[n - 1], walk[n]);
    }
}

/// Whether the search has come upon the cell `c`.
spec fn seen(map: Grid, visited: Set<u64>, c: Point) -> bool {
    map.in_grid(c) && visited.contains(map.index_spec(c) as u64)
}

/// Whether the search has come upon the neighbour of `c` in heading `d`, if
/// the snake can enter it.
spec fn neighbor_seen(map: Grid, visited: Set<u64>, c: Point, d: Direction) -> bool {
    !map.state_at(map.neighbor_spec(c, d)).is_hazard() ==> seen(
        map,
        visited,
        map.neighbor_spec(c, d),
    )
}

/// Whether the search has dealt with the first `tried` neighbours of `c`.
spec fn neighbors_seen(map: Grid, visited: Set<u64>, c: Point, tried: int) -> bool {
    forall|i: int|
        0 <= i < tried ==> neighbor_seen(map, visited, c, #[trigger] Direction::nth(i))
}

/// Whether the search is through with the cell `c`: it is not next to the
/// target, and every neighbour that the snake can enter has been come upon.
spec fn expanded(map: Grid, visited: Set<u64>, target: Point, c: Point) -> bool {
    &&& map.in_grid(c)
    &&& map.manhattan_spec(c, target) != 1
    &&& neighbors_seen(map, visited, c, 4)
}

/// What holds of the search between two steps. `current` is the cell being
/// expanded, if `expanding` says that there is one.
#[verifier::opaque]
spec fn search_inv(
    map: Grid,
    start: Point,
    target: Point,
    visited: Set<u64>,
    queue: Multiset<Thingy>,
    done: Set<Point>,
    expanding: bool,
    current: Point,
) -> bool {
    &&& visited.finite()
    &&& forall|k: u64| visited.contains(k) ==> k < map.cell_total()
    &&& seen(map, visited, start)
    &&& expanding ==> seen(map, visited, current)
    &&& forall|c: Point| #[trigger]
        seen(map, visited, c) ==> {
            &&& connected(map, start, c)
            &&& {
                ||| done.contains(c)
                ||| queue.contains(Thingy::of(c, target, map))
                ||| expanding && c == current
            }
        }
    &&& forall|x: Thingy| #[trigger]
        queue.contains(x) ==> seen(map, visited, x.pos) && x == Thingy::of(x.pos, target, map)
    &&& forall|c: Point| #[trigger] done.contains(c) ==> expanded(map, visited, target, c)
}

/// How much work is left at most: each cell not yet come upon may still be
/// put on the frontier and taken from it.
spec fn work_left(map: Grid, visited: Set<u64>, queue: Multiset<Thingy>) -> int {
    2 * (map.cell_total() - visited.len()) + queue.len()
}

/// The search begins with the start on the frontier.
proof fn lemma_begin(map: Grid, start: Point, target: Point)
    requires
        map.wf(),
        map.in_grid(start),
    ensures
        search_inv(
            map,
            start,
            target,
            Set::<u64>::empty().insert(map.index_spec(start) as u64),
            Multiset::<Thingy>::empty().insert(Thingy::of(start, target, map)),
            Set::<Point>::empty(),
            false,
            start,
        ),
{
    reveal(search_inv);
    let visited = Set::<u64>::empty().insert(map.index_spec(start) as u64);
    lemma_connected_self(map, start);
    lemma_index_injective(map, start, start);
    assert forall|c: Point| #[trigger] seen(map, visited, c) implies c == start by {
        lemma_index_injective(map, c, start);
    }
}

/// Taking a cell from the frontier leaves one piece of work less, and the
/// cell taken is one that a walk from the start leads to.
proof fn lemma_take(
    map: Grid,
    start: Point,
    target: Point,
    visited: Set<u64>,
    queue: Multiset<Thingy>,
    done: Set<Point>,
    x: Thingy,
)
    requires
        map.wf(),
        map.in_grid(target),
        search_inv(map, start, target, visited, queue, done, false, start),
        queue.contains(x),
    ensures
        search_inv(map, start, target, visited, queue.remove(x), done, true, x.pos),
        work_left(map, visited, queue.remove(x)) == work_left(map, visited, queue) - 1,
        0 <= work_left(map, visited, queue.remove(x)),
        map.in_grid(x.pos),
        connected(map, start, x.pos),
        x.distance == -map.manhattan_spec(x.pos, target),
        -x.distance <= map.width() + map.height(),
{
    reveal(search_inv);
    lemma_keys_below(visited, map.cell_total() as nat);
    let rest = queue.remove(x);
    assert(seen(map, visited, x.pos));
    assert forall|c: Point| #[trigger] seen(map, visited, c) implies {
        ||| done.contains(c)
        ||| rest.contains(Thingy::of(c, target, map))
        ||| c == x.pos
    } by {
        if Thingy::of(c, target, map) == x {
            assert(c == x.pos);
        }
    }
    assert forall|y: Thingy| #[trigger] rest.contains(y) implies seen(map, visited, y.pos) && y
        == Thingy::of(y.pos, target, map) by {
        assert(queue.contains(y));
    }
    map.lemma_manhattan_fits(x.pos, target);
    lemma_manhattan_bounded(map, x.pos, target);
}

/// When the frontier is empty, every cell that a walk from `start` leads to
/// has been expanded, and none of them is next to the target.
proof fn lemma_exhausted(
    map: Grid,
    start: Point,
    target: Point,
    visited: Set<u64>,
    queue: Multiset<Thingy>,
    done: Set<Point>,
)
    requires
        search_inv(map, start, target, visited, queue, done, false, start),
        queue.len() == 0,
    ensures
        !reaches_target(map, start, target),
{
    reveal(search_inv);
    let inside = Set::new(|c: Point| seen(map, visited, c));
    assert forall|c: Point| #[trigger] seen(map, visited, c) implies expanded(
        map,
        visited,
        target,
        c,
    ) by {
        assert(queue.count(Thingy::of(c, target, map)) <= queue.len());
    }
    assert forall|a: Point, b: Point| inside.contains(a) && #[trigger] link(
        map,
        a,
        b,
    ) implies inside.contains(b) by {
        assert(expanded(map, visited, target, a));
        assert(Direction::nth(0) == Direction::W && Direction::nth(1) == Direction::N
            && Direction::nth(2) == Direction::E && Direction::nth(3) == Direction::S);
    }
    assert forall|c: Point| #[trigger] connected(map, start, c) implies map.manhattan_spec(
        c,
        target,
    ) != 1 by {
        lemma_connected_stays(map, start, inside, c);
        assert(seen(map, visited, c));
    }
}

/// A neighbour that the search has not come upon and that the snake can
/// enter goes on the frontier.
proof fn lemma_enqueue(
    map: Grid,
    start: Point,
    target: Point,
    visited: Set<u64>,
    queue: Multiset<Thingy>,
    done: Set<Point>,
    cur: Point,
    tried: int,
    n: Point,
)
    requires
        map.wf(),
        map.in_grid(cur),
        map.in_grid(n),
        0 <= tried < 4,
        n == map.neighbor_spec(cur, Direction::nth(tried)),
        search_inv(map, start, target, visited, queue, done, true, cur),
        neighbors_seen(map, visited, cur, tried),
        !seen(map, visited, n),
        !map.state_at(n).is_hazard(),
    ensures
        ({
            let wider = visited.insert(map.index_spec(n) as u64);
            let longer = queue.insert(Thingy::of(n, target, map));
            &&& search_inv(map, start, target, wider, longer, done, true, cur)
            &&& neighbors_seen(map, wider, cur, tried + 1)
            &&& work_left(map, wider, longer) == work_left(map, visited, queue) - 1
            &&& 0 <= work_left(map, wider, longer)
        }),
{
    reveal(search_inv);
    let wider = visited.insert(map.index_spec(n) as u64);
    let longer = queue.insert(Thingy::of(n, target, map));
    lemma_index_injective(map, n, n);
    assert(seen(map, visited, cur));
    assert(link(map, cur, n));
    lemma_connected_step(map, start, cur, n);
    assert forall|c: Point| #[trigger] seen(map, wider, c) implies {
        &&& connected(map, start, c)
        &&& {
            ||| done.contains(c)
            ||| longer.contains(Thingy::of(c, target, map))
            ||| c == cur
        }
    } by {
        lemma_index_injective(map, c, n);
        if c != n {
            assert(seen(map, visited, c));
        }
    }
    assert forall|x: Thingy| #[trigger] longer.contains(x) implies seen(map, wider, x.pos) && x
        == Thingy::of(x.pos, target, map) by {
        if x != Thingy::of(n, target, map) {
            assert(queue.contains(x));
            assert(seen(map, visited, x.pos));
        }
    }
    assert forall|c: Point| #[trigger] done.contains(c) implies expanded(
        map,
        wider,
        target,
        c,
    ) by {
        assert(expanded(map, visited, target, c));
        lemma_seen_grows(map, visited, wider, c, 4);
    }
    lemma_seen_grows(map, visited, wider, cur, tried);
    assert(seen(map, wider, n));
    lemma_skip(map, wider, cur, tried);
    lemma_keys_below(wider, map.cell_total() as nat);
}

/// What the search has come upon, it has still come upon when it knows more.
proof fn lemma_seen_grows(map: Grid, visited: Set<u64>, wider: Set<u64>, c: Point, tried: int)
    requires
        visited.subset_of(wider),
        neighbors_seen(map, visited, c, tried),
    ensures
        neighbors_seen(map, wider, c, tried),
{
    assert forall|i: int| 0 <= i < tried implies neighbor_seen(
        map,
        wider,
        c,
        #[trigger] Direction::nth(i),
    ) by {
        assert(neighbor_seen(map, visited, c, Direction::nth(i)));
    }
}

/// A neighbour that the snake cannot enter, or that the search has come upon
/// already, asks for nothing.
proof fn lemma_skip(map: Grid, visited: Set<u64>, cur: Point, tried: int)
    requires
        0 <= tried < 4,
        neighbors_seen(map, visited, cur, tried),
        neighbor_seen(map, visited, cur, Direction::nth(tried)),
    ensures
        neighbors_seen(map, visited, cur, tried + 1),
{
    assert forall|i: int| 0 <= i < tried + 1 implies neighbor_seen(
        map,
        visited,
        cur,
        #[trigger] Direction::nth(i),
    ) by {
        if i < tried {
            assert(neighbor_seen(map, visited, cur, Direction::nth(i)));
        }
    }
}

/// A cell whose four neighbours are dealt with is done.
proof fn lemma_finish(
    map: Grid,
    start: Point,
    target: Point,
    visited: Set<u64>,
    queue: Multiset<Thingy>,
    done: Set<Point>,
    cur: Point,
)
    requires
        map.in_grid(cur),
        map.manhattan_spec(cur, target) != 1,
        search_inv(map, start, target, visited, queue, done, true, cur),
        neighbors_seen(map, visited, cur, 4),
    ensures
        search_inv(map, start, target, visited, queue, done.insert(cur), false, start),
{
    reveal(search_inv);
    assert(expanded(map, visited, target, cur));
}

/// Decides whether the snake, starting from the cell at `start`, can walk to
/// a cell next to the one at `target`, with the grid as it stands. Walls and
/// the snake's body bar the way; nothing is asked of the start itself.
///
/// The frontier is expanded nearest to the target first, and each cell enters
/// it at most once. The search ends with `Yes` when it takes from the
/// frontier a cell at distance 1 from the target, and with `No` when the
/// frontier is empty. No cell that it takes is further from the target than
/// the grid is wide and high together.
pub fn best_first_search(start: &Point, target: &Point, map: &Grid) -> (r: Reachable)
    requires
        map.wf(),
        map.reaches(*start),
        map.reaches(*target),
    ensures
        (r == Reachable::Yes) == reaches_target(
            *map,
            map.normalize_spec(*start),
            map.normalize_spec(*target),
        ),
{
    let s = map.normalize(start);
    let t = map.normalize(target);
    let mut visited: HashSet<u64> = HashSet::new();
    let mut q = Frontier::new();
    let ghost mut done: Set<Point> = Set::empty();
    visited.insert(map.index(&s));
    q.push(Thingy::new(&s, &t, map));
    proof {
        lemma_begin(*map, s, t);
    }
    loop
        invariant
            map.wf(),
            q.wf(),
            map.in_grid(s),
            map.in_grid(t),
            s == map.normalize_spec(*start),
            t == map.normalize_spec(*target),
            search_inv(*map, s, t, visited@, q@, done, false, s),
        decreases work_left(*map, visited@, q@),
    {
        let ghost work = work_left(*map, visited@, q@);
        let ghost waiting = q@;
        let nearest = match q.pop() {
            None => {
                proof {
                    lemma_exhausted(*map, s, t, visited@, q@, done);
                }
                return Reachable::No;
            },
            Some(x) => x,
        };
        proof {
            lemma_take(*map, s, t, visited@, waiting, done, nearest);
        }
        assert(-nearest.distance <= map.width() + map.height());
        if nearest.distance == -1 {
            assert(connected(*map, s, nearest.pos) && map.manhattan_spec(nearest.pos, t) == 1);
            return Reachable::Yes;
        }
        let cur = nearest.pos;
        let mut it = cur.neighbors();
        let ghost mut tried: int = 0;
        loop
            invariant_except_break
                it.remaining() == cur.direct_spec().subrange(tried, 4),
            invariant
                0 <= tried <= 4,
                map.wf(),
                map.in_grid(cur),
                it.wf(),
                q.wf(),
                search_inv(*map, s, t, visited@, q@, done, true, cur),
                neighbors_seen(*map, visited@, cur, tried),
                0 <= work_left(*map, visited@, q@) < work,
            ensures
                tried == 4,
            decreases it.remaining().len(),
        {
            let raw = match it.next() {
                None => {
                    break ;
                },
                Some(p) => p,
            };
            assert(raw == cur.direct_spec()[tried]);
            let n = map.normalize(&raw);
            let k = map.index(&n);
            if !visited.contains(&k) && !map.at(&n).hazard() {
                proof {
                    lemma_enqueue(*map, s, t, visited@, q@, done, cur, tried, n);
                }
                visited.insert(k);
                q.push(Thingy::new(&n, &t, map));
            } else {
                proof {
                    lemma_skip(*map, visited@, cur, tried);
                }
            }
            proof {
                assert(cur.direct_spec().subrange(tried, 4).drop_first()
                    =~= cur.direct_spec().subrange(tried + 1, 4));
                tried = tried + 1;
            }
        }
        proof {
            lemma_finish(*map, s, t, visited@, q@, done, cur);
            done = done.insert(cur);
        }
    }
}

} // verus!
