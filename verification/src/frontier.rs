//! The frontier of the search: the cells that wait to be expanded, nearest
//! to the target first. It is a binary heap.

use crate::grid::Grid;
use crate::orientation::Point;
use vstd::multiset::Multiset;
use vstd::prelude::*;
use vstd::seq_lib::to_multiset_update;

verus! {

/// A cell of the frontier with its priority: the distance to the target,
/// negated, so that the nearest cell has the greatest.
#[derive(Hash, Debug, Clone, Copy, PartialEq, Eq, Structural)]
pub struct Thingy {
    pub distance: i64,
    pub pos: Point,
}

impl Thingy {
    /// What the frontier holds for the cell `point` on the way to `target`.
    pub open spec fn of(point: Point, target: Point, map: Grid) -> Thingy {
        Thingy { distance: (-map.manhattan_spec(point, target)) as i64, pos: point }
    }

    /// The cell `point` with its priority on the way to `target`.
    pub fn new(point: &Point, target: &Point, map: &Grid) -> (t: Thingy)
        ensures
            t == Thingy::of(*point, *target, *map),
            t.distance == -map.manhattan_spec(*point, *target),
    {
        proof {
            map.lemma_manhattan_fits(*point, *target);
        }
        Thingy { distance: -map.manhattan(point, target), pos: *point }
    }
}

/// The place above the place `i` in the heap.
pub open spec fn parent(i: int) -> int {
    (i - 1) / 2
}

/// Whether the item at place `i`, if it has one above it, is no greater than
/// that one.
spec fn below_parent(s: Seq<Thingy>, i: int) -> bool {
    0 < i < s.len() ==> s[parent(i)].distance >= s[i].distance
}

/// Whether each item is no greater than the one above it.
spec fn heap_ordered(s: Seq<Thingy>) -> bool {
    forall|i: int| #[trigger] below_parent(s, i)
}

/// Whether `s` is in order but for the item at `hole`, which may be greater
/// than the one above it; the items below `hole` are no greater than the one
/// above it.
spec fn ordered_above(s: Seq<Thingy>, hole: int) -> bool {
    &&& forall|i: int| i != hole ==> #[trigger] below_parent(s, i)
    &&& forall|i: int|
        0 < i < s.len() && parent(i) == hole && hole > 0 ==> s[parent(hole)].distance >= (
        #[trigger] s[i]).distance
}

/// Whether `s` is in order but for the item at `hole`, which may be less than
/// the ones below it; those are no greater than the one above `hole`.
spec fn ordered_below(s: Seq<Thingy>, hole: int) -> bool {
    &&& forall|i: int| parent(i) != hole ==> #[trigger] below_parent(s, i)
    &&& forall|i: int|
        0 < i < s.len() && parent(i) == hole && hole > 0 ==> s[parent(hole)].distance >= (
        #[trigger] s[i]).distance
}

/// `s` with the items at `i` and `j` in each other's place.
spec fn swapped(s: Seq<Thingy>, i: int, j: int) -> Seq<Thingy> {
    s.update(i, s[j]).update(j, s[i])
}

/// Two items that change places leave what the heap holds as it is.
proof fn lemma_swap_keeps_items(s: Seq<Thingy>, i: int, j: int)
    requires
        0 <= i < s.len(),
        0 <= j < s.len(),
    ensures
        swapped(s, i, j).to_multiset() == s.to_multiset(),
{
    s.to_multiset_ensures();
    let half = s.update(i, s[j]);
    to_multiset_update(s, i, s[j]);
    to_multiset_update(half, j, s[i]);
    assert(s.contains(s[i]) && s.contains(s[j]));
    assert(swapped(s, i, j).to_multiset() =~= s.to_multiset());
}

/// In a heap no item is greater than the first.
proof fn lemma_first_greatest(s: Seq<Thingy>, i: int)
    requires
        heap_ordered(s),
        0 <= i < s.len(),
    ensures
        s[i].distance <= s[0].distance,
    decreases i,
{
    if i > 0 {
        assert(below_parent(s, i));
        lemma_first_greatest(s, parent(i));
    }
}

/// A priority queue of cells. What it holds has no order of its own; `pop`
/// takes out one with the greatest priority.
pub struct Frontier {
    items: Vec<Thingy>,
}

impl View for Frontier {
    type V = Multiset<Thingy>;

    closed spec fn view(&self) -> Multiset<Thingy> {
        self.items@.to_multiset()
    }
}

impl Frontier {
    /// The heap's invariant: each item is no greater than the one above it.
    pub closed spec fn wf(&self) -> bool {
        heap_ordered(self.items@)
    }

    /// A frontier that holds nothing.
    pub fn new() -> (q: Frontier)
        ensures
            q.wf(),
            q@ == Multiset::<Thingy>::empty(),
    {
        let q = Frontier { items: Vec::new() };
        proof {
            q.items@.to_multiset_ensures();
            assert(q@.len() == 0);
            assert(q@ =~= Multiset::<Thingy>::empty());
            assert forall|i: int| #[trigger] below_parent(q.items@, i) by {}
        }
        q
    }

    /// Lets the item at `hole` rise while it is greater than the one above it.
    fn sift_up(&mut self, hole: usize)
        requires
            hole < old(self).items@.len(),
            ordered_above(old(self).items@, hole as int),
        ensures
            final(self).wf(),
            final(self)@ == old(self)@,
    {
        let mut i = hole;
        while i > 0
            invariant
                i < self.items@.len(),
                ordered_above(self.items@, i as int),
                self@ == old(self)@,
            ensures
                heap_ordered(self.items@),
                self@ == old(self)@,
            decreases i,
        {
            let up = (i - 1) / 2;
            if self.items[up].distance >= self.items[i].distance {
                proof {
                    let s = self.items@;
                    assert forall|k: int| #[trigger] below_parent(s, k) by {
                        if k != i {
                            assert(below_parent(s, k));
                        }
                    }
                }
                break ;
            }
            let ghost before = self.items@;
            let low = self.items[up];
            let high = self.items[i];
            self.items[up] = high;
            self.items[i] = low;
            proof {
                let s = self.items@;
                assert(s =~= swapped(before, up as int, i as int));
                lemma_swap_keeps_items(before, up as int, i as int);
                assert forall|k: int| k != up implies #[trigger] below_parent(s, k) by {
                    if 0 < k < s.len() {
                        if k == i {
                        } else if parent(k) == i {
                            assert(before[k] == s[k]);
                        } else {
                            assert(below_parent(before, k));
                        }
                    }
                }
                assert forall|k: int|
                    0 < k < s.len() && parent(k) == up && up > 0 implies s[parent(
                        up as int,
                    )].distance >= (#[trigger] s[k]).distance by {
                    assert(below_parent(before, up as int));
                    if k != i {
                        assert(below_parent(before, k));
                    }
                }
            }
            i = up;
        }
        proof {
            if i == 0 {
                let s = self.items@;
                assert forall|k: int| #[trigger] below_parent(s, k) by {
                    if k != 0 {
                        assert(below_parent(s, k));
                    }
                }
            }
        }
    }

    /// Lets the item at `hole` sink while one below it is greater.
    fn sift_down(&mut self, hole: usize)
        requires
            hole < old(self).items@.len(),
            ordered_below(old(self).items@, hole as int),
        ensures
            final(self).wf(),
            final(self)@ == old(self)@,
    {
        let mut i = hole;
        let len = self.items.len();
        loop
            invariant_except_break
                ordered_below(self.items@, i as int),
            invariant
                i < len,
                len == self.items@.len(),
                self@ == old(self)@,
            ensures
                heap_ordered(self.items@),
            decreases len - i,
        {
            if i >= (len - 1) / 2 + (len - 1) % 2 {
                proof {
                    let s = self.items@;
                    assert forall|k: int| #[trigger] below_parent(s, k) by {
                        if parent(k) != i {
                            assert(below_parent(s, k));
                        }
                    }
                }
                break ;
            }
            let left = 2 * i + 1;
            let right = left + 1;
            let child = if right < len && self.items[right].distance
                > self.items[left].distance {
                right
            } else {
                left
            };
            if self.items[i].distance >= self.items[child].distance {
                proof {
                    let s = self.items@;
                    assert forall|k: int| #[trigger] below_parent(s, k) by {
                        if parent(k) != i {
                            assert(below_parent(s, k));
                        }
                    }
                }
                break ;
            }
            let ghost before = self.items@;
            let high = self.items[child];
            let low = self.items[i];
            self.items[i] = high;
            self.items[child] = low;
            proof {
                let s = self.items@;
                assert(s =~= swapped(before, i as int, child as int));
                lemma_swap_keeps_items(before, i as int, child as int);
                assert forall|k: int| parent(k) != child implies #[trigger] below_parent(
                    s,
                    k,
                ) by {
                    if 0 < k < s.len() {
                        if k == child {
                        } else if parent(k) == i {
                        } else if k == i {
                            assert(before[parent(k)] == s[parent(k)]);
                        } else {
                            assert(below_parent(before, k));
                        }
                    }
                }
                assert forall|k: int|
                    0 < k < s.len() && parent(k) == child && child > 0 implies s[parent(
                        child as int,
                    )].distance >= (#[trigger] s[k]).distance by {
                    assert(below_parent(before, k));
                }
            }
            i = child;
        }
    }

    /// Puts a cell on the frontier.
    pub fn push(&mut self, t: Thingy)
        requires
            old(self).wf(),
        ensures
            final(self).wf(),
            final(self)@ == old(self)@.insert(t),
    {
        proof {
            self.items@.to_multiset_ensures();
        }
        self.items.push(t);
        let last = self.items.len() - 1;
        proof {
            let s = self.items@;
            let before = old(self).items@;
            assert forall|i: int| i != last implies #[trigger] below_parent(s, i) by {
                if 0 < i < s.len() {
                    assert(below_parent(before, i));
                }
            }
        }
        self.sift_up(last);
    }

    /// Takes out a cell with the greatest priority, that is, one nearest to
    /// the target; which one among equals is left open.
    pub fn pop(&mut self) -> (r: Option<Thingy>)
        requires
            old(self).wf(),
        ensures
            final(self).wf(),
            match r {
                None => old(self)@.len() == 0 && final(self)@ == old(self)@,
                Some(x) => {
                    &&& old(self)@.contains(x)
                    &&& final(self)@ == old(self)@.remove(x)
                    &&& forall|y: Thingy| #[trigger]
                        old(self)@.contains(y) ==> y.distance <= x.distance
                },
            },
    {
        let ghost before = self.items@;
        proof {
            before.to_multiset_ensures();
        }
        if self.items.len() == 0 {
            return None;
        }
        let top = self.items[0];
        let last = self.items.pop().unwrap();
        proof {
            assert(self.items@ =~= before.remove(before.len() - 1));
            assert(before.contains(top) && before.contains(last));
            assert forall|y: Thingy| #[trigger] before.to_multiset().contains(y) implies y.distance
                <= top.distance by {
                assert(before.contains(y));
                let j = choose|j: int| 0 <= j < before.len() && before[j] == y;
                lemma_first_greatest(before, j);
            }
        }
        if self.items.len() > 0 {
            let ghost shorter = self.items@;
            self.items[0] = last;
            proof {
                let s = self.items@;
                to_multiset_update(shorter, 0, last);
                assert(s.to_multiset() =~= before.to_multiset().remove(top));
                assert forall|k: int| parent(k) != 0 implies #[trigger] below_parent(s, k) by {
                    if 0 < k < s.len() {
                        assert(below_parent(before, k));
                    }
                }
            }
            self.sift_down(0);
        } else {
            proof {
                assert forall|k: int| #[trigger] below_parent(self.items@, k) by {}
            }
        }
        Some(top)
    }
}

} // verus!
